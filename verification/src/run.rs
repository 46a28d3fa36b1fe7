//! The machine that runs a parsed program.
//!
//! The machine moves in small steps and never reaches outside itself. A
//! step either changes the state, or ends the run, or hands the caller a
//! request: arithmetic on doubles, the console, the clock. The caller does
//! what is asked and answers; then the machine goes on.

use vstd::prelude::*;
use crate::builtins::{
    builtin_effect, builtins, find, global_write, lemma_conditions_steer, lemma_only_set_writes,
    local_write, past, resolve, texts, FunctionView, Memory, MemoryView, Outcome, OutcomeView,
    Request, RequestView, Then,
};
use crate::error::{RunError, RunErrorKind, RunErrorKindView, RunErrorView};
use crate::number::{is_zero, Num, NumView};
use crate::parse::{program_view, Command, CommandView, Expr, ExprView};
use crate::table::{assign, lookup, Table};
use crate::value::{nothing, views, Value, ValueView};

verus! {

/// A command that is being evaluated.
#[derive(Debug)]
pub struct Task<'a> {
    /// The command as it stands in the program.
    pub command: &'a Command,
    /// The name under which it is run.
    pub name: String,
    /// The values of the arguments evaluated so far.
    pub args: Vec<Value>,
    /// How many argument expressions have been taken up.
    pub pending: usize,
}

/// The mathematical content of a [`Task`].
pub struct TaskView {
    pub command: CommandView,
    pub name: Seq<char>,
    pub args: Seq<ValueView>,
    pub pending: usize,
}

impl<'a> View for Task<'a> {
    type V = TaskView;

    open spec fn view(&self) -> TaskView {
        TaskView {
            command: self.command@,
            name: self.name@,
            args: views(self.args@),
            pending: self.pending,
        }
    }
}

/// The contents of a sequence of tasks.
pub open spec fn task_views(s: Seq<Task>) -> Seq<TaskView> {
    Seq::new(s.len(), |i: int| s[i]@)
}

/// One running function, or the top level of the program.
#[derive(Debug)]
pub struct Frame<'a> {
    /// The local variables.
    pub locals: Table<Value>,
    /// The line that is running.
    pub lineno: usize,
    /// The line that runs next.
    pub next: usize,
    /// The commands of the running line that are being evaluated, the
    /// innermost last.
    pub tasks: Vec<Task<'a>>,
}

/// The mathematical content of a [`Frame`].
pub struct FrameView {
    pub locals: Seq<(Seq<char>, ValueView)>,
    pub lineno: usize,
    pub next: usize,
    pub tasks: Seq<TaskView>,
}

impl<'a> View for Frame<'a> {
    type V = FrameView;

    open spec fn view(&self) -> FrameView {
        FrameView {
            locals: self.locals@,
            lineno: self.lineno,
            next: self.next,
            tasks: task_views(self.tasks@),
        }
    }
}

/// The contents of a sequence of frames.
pub open spec fn frame_views(s: Seq<Frame>) -> Seq<FrameView> {
    Seq::new(s.len(), |i: int| s[i]@)
}

/// What the host answers.
#[derive(PartialEq, Debug)]
pub enum Reply {
    /// The double that was asked for.
    Number(Num),
    /// The text is no number.
    NotANumber,
    /// The text was written.
    Done,
    /// The line that was read.
    Line(String),
    /// Reading or writing failed, with the reason.
    Failure(String),
}

/// The mathematical content of a [`Reply`].
pub enum ReplyView {
    Number(NumView),
    NotANumber,
    Done,
    Line(Seq<char>),
    Failure(Seq<char>),
}

impl View for Reply {
    type V = ReplyView;

    open spec fn view(&self) -> ReplyView {
        match self {
            Reply::Number(n) => ReplyView::Number(n@),
            Reply::NotANumber => ReplyView::NotANumber,
            Reply::Done => ReplyView::Done,
            Reply::Line(s) => ReplyView::Line(s@),
            Reply::Failure(s) => ReplyView::Failure(s@),
        }
    }
}

/// What a step of the machine comes to.
#[derive(PartialEq, Debug)]
pub enum Action {
    /// The machine has more to do.
    Continue,
    /// The host is asked for something, and the machine waits.
    Ask(Request),
    /// The program has run to its end.
    Finished,
    /// The program has failed.
    Failed(RunError),
}

/// The mathematical content of an [`Action`].
pub enum ActionView {
    Continue,
    Ask(RequestView),
    Finished,
    Failed(RunErrorView),
}

impl View for Action {
    type V = ActionView;

    open spec fn view(&self) -> ActionView {
        match self {
            Action::Continue => ActionView::Continue,
            Action::Ask(r) => ActionView::Ask(r@),
            Action::Finished => ActionView::Finished,
            Action::Failed(e) => ActionView::Failed(e@),
        }
    }
}

/// The state of a run.
#[derive(Debug)]
pub struct State<'a> {
    lines: &'a Vec<Option<Command>>,
    memory: Memory,
    frames: Vec<Frame<'a>>,
    waiting: Option<(Request, Then)>,
    result: Value,
}

/// The mathematical content of a [`State`].
pub struct StateView {
    /// The program.
    pub lines: Seq<Option<CommandView>>,
    /// The lists, the globals and the functions.
    pub memory: MemoryView,
    /// The running functions, the innermost last; the first is the top
    /// level.
    pub frames: Seq<FrameView>,
    /// The request that the host has not answered yet.
    pub waiting: Option<(RequestView, Then)>,
    /// The value of the line that ended last.
    pub result: ValueView,
}

impl<'a> View for State<'a> {
    type V = StateView;

    closed spec fn view(&self) -> StateView {
        StateView {
            lines: program_view(self.lines@),
            memory: self.memory@,
            frames: frame_views(self.frames@),
            waiting: match self.waiting {
                Some((r, t)) => Some((r@, t)),
                None => None,
            },
            result: self.result@,
        }
    }
}

/// The name that an error bears when no command is at fault.
pub open spec fn nobody() -> Seq<char> {
    "n/a"@
}

/// The task that begins the evaluation of a command.
pub open spec fn begun(c: CommandView) -> TaskView {
    TaskView { command: c, name: c.name, args: Seq::empty(), pending: 0 }
}

/// The frame in which a program starts.
pub open spec fn ground(lineno: usize) -> FrameView {
    FrameView { locals: Seq::empty(), lineno, next: lineno, tasks: Seq::empty() }
}

/// The state in which a program starts.
pub open spec fn initial(lines: Seq<Option<CommandView>>) -> StateView {
    StateView {
        lines,
        memory: MemoryView { heap: Seq::empty(), globals: Seq::empty(), functions: Seq::empty() },
        frames: seq![ground(0)],
        waiting: None,
        result: nothing(),
    }
}

/// The error `e` of a called function, as the callers pass it on: each
/// wraps it with its own line and the command that made the call.
pub open spec fn wrapped(callers: Seq<FrameView>, e: RunErrorView) -> RunErrorView
    decreases callers.len(),
{
    if callers.len() == 0 {
        e
    } else {
        let c = callers.last();
        wrapped(
            callers.drop_last(),
            RunErrorView {
                line: c.lineno,
                function: if c.tasks.len() > 0 {
                    c.tasks.last().command.name
                } else {
                    nobody()
                },
                inner: RunErrorKindView::Wrap(Box::new(e)),
            },
        )
    }
}

/// The run fails in frame `f`, whose callers are the frames of `s`: the
/// error goes up through them, and what remains is the top level with
/// nothing left to run.
pub open spec fn failing(s: StateView, f: FrameView, kind: RunErrorKindView, function: Seq<char>) -> (
    StateView,
    ActionView,
) {
    (
        StateView {
            lines: s.lines,
            memory: s.memory,
            frames: seq![
                FrameView {
                    locals: if s.frames.len() > 0 {
                        s.frames[0].locals
                    } else {
                        f.locals
                    },
                    lineno: s.lines.len() as usize,
                    next: s.lines.len() as usize,
                    tasks: Seq::empty(),
                },
            ],
            waiting: None,
            result: s.result,
        },
        ActionView::Failed(
            wrapped(s.frames, RunErrorView { line: f.lineno, function, inner: kind }),
        ),
    )
}

/// A command of frame `f` has come to the value `v`, the tasks of `f` being
/// those that wait for it: the innermost takes the value as its next
/// argument; if none waits, the line is done and the frame moves to its
/// next line.
pub open spec fn settling(s: StateView, f: FrameView, v: ValueView) -> StateView {
    if f.tasks.len() == 0 {
        StateView {
            lines: s.lines,
            memory: s.memory,
            frames: s.frames.push(
                FrameView { locals: f.locals, lineno: f.next, next: f.next, tasks: f.tasks },
            ),
            waiting: None,
            result: v,
        }
    } else {
        let p = f.tasks.last();
        StateView {
            lines: s.lines,
            memory: s.memory,
            frames: s.frames.push(
                FrameView {
                    locals: f.locals,
                    lineno: f.lineno,
                    next: f.next,
                    tasks: f.tasks.drop_last().push(
                        TaskView {
                            command: p.command,
                            name: p.name,
                            args: p.args.push(v),
                            pending: p.pending,
                        },
                    ),
                },
            ),
            waiting: None,
            result: s.result,
        }
    }
}

/// The innermost function returns `v`: its frame goes, and the command of
/// the caller that made the call has the value. `s` holds the frames of the
/// callers.
pub open spec fn returning(s: StateView, v: ValueView) -> StateView {
    let c = s.frames.last();
    settling(
        StateView {
            lines: s.lines,
            memory: s.memory,
            frames: s.frames.drop_last(),
            waiting: None,
            result: s.result,
        },
        FrameView {
            locals: c.locals,
            lineno: c.lineno,
            next: c.next,
            tasks: if c.tasks.len() > 0 {
                c.tasks.drop_last()
            } else {
                c.tasks
            },
        },
        v,
    )
}

/// The local variables of a call: the list of all arguments under `.args`,
/// then each parameter with its argument.
pub open spec fn bound(
    locals: Seq<(Seq<char>, ValueView)>,
    params: Seq<Seq<char>>,
    args: Seq<ValueView>,
    n: int,
) -> Seq<(Seq<char>, ValueView)>
    decreases n,
{
    if n <= 0 {
        locals
    } else {
        assign(bound(locals, params, args, n - 1), params[n - 1], args[n - 1])
    }
}

/// What calling the function `name` with `args` comes to: the heap with the
/// list of the arguments in it and the frame in which the body runs; or
/// the reason why there is no call.
pub open spec fn call_of(m: MemoryView, name: Seq<char>, args: Seq<ValueView>) -> Result<
    (Seq<Seq<ValueView>>, FrameView),
    RunErrorKindView,
> {
    match lookup(m.functions, name) {
        None => Err(RunErrorKindView::NotImplemented),
        Some(f) => {
            let all = seq![(".args"@, ValueView::List(m.heap.len() as usize))];
            match f.arguments {
                Some(params) => if params.len() != args.len() {
                    Err(RunErrorKindView::ValueError(params.len() as usize))
                } else {
                    Ok(
                        (
                            m.heap.push(args),
                            FrameView {
                                locals: bound(all, params, args, params.len() as int),
                                lineno: f.lineno,
                                next: f.lineno,
                                tasks: Seq::empty(),
                            },
                        ),
                    )
                },
                None => Ok(
                    (
                        m.heap.push(args),
                        FrameView {
                            locals: all,
                            lineno: f.lineno,
                            next: f.lineno,
                            tasks: Seq::empty(),
                        },
                    ),
                ),
            }
        },
    }
}

/// The frame `f` with `tasks` in the place of its tasks.
pub open spec fn having(f: FrameView, tasks: Seq<TaskView>) -> FrameView {
    FrameView { locals: f.locals, lineno: f.lineno, next: f.next, tasks }
}

/// The task `t` with `args` in the place of its arguments.
pub open spec fn holding(t: TaskView, args: Seq<ValueView>) -> TaskView {
    TaskView { command: t.command, name: t.name, args, pending: t.pending }
}

/// The state `s` with the frame `f` on top of its frames, and no request
/// open.
pub open spec fn put(s: StateView, f: FrameView) -> StateView {
    StateView {
        lines: s.lines,
        memory: s.memory,
        frames: s.frames.push(f),
        waiting: None,
        result: s.result,
    }
}

/// The state `s` without its innermost frame.
pub open spec fn beneath(s: StateView) -> StateView {
    StateView {
        lines: s.lines,
        memory: s.memory,
        frames: s.frames.drop_last(),
        waiting: s.waiting,
        result: s.result,
    }
}

/// The task `t` goes back on the frame `f`, and `f` on the frames of `s`.
pub open spec fn resumed(s: StateView, f: FrameView, t: TaskView) -> StateView {
    put(s, having(f, f.tasks.push(t)))
}

/// The host is asked; the task `t` waits for the reply.
pub open spec fn asking(s: StateView, f: FrameView, t: TaskView, request: RequestView, then: Then) -> (
    StateView,
    ActionView,
) {
    (
        StateView {
            lines: s.lines,
            memory: s.memory,
            frames: s.frames.push(having(f, f.tasks.push(t))),
            waiting: Some((request, then)),
            result: s.result,
        },
        ActionView::Ask(request),
    )
}

/// The task `t` takes up its next argument expression `e`: a sub-command
/// becomes a task of its own, a literal and a line are values as they stand,
/// a numeral is read by the host, and a variable is looked up.
pub open spec fn taking(s: StateView, f: FrameView, t: TaskView, e: ExprView) -> (
    StateView,
    ActionView,
) {
    let t1 = TaskView {
        command: t.command,
        name: t.name,
        args: t.args,
        pending: past(t.pending),
    };
    match e {
        ExprView::Command(c) => (
            put(s, having(f, f.tasks.push(t1).push(begun(c)))),
            ActionView::Continue,
        ),
        ExprView::Literal(x) => (
            resumed(s, f, holding(t1, t.args.push(ValueView::Text(x)))),
            ActionView::Continue,
        ),
        ExprView::Number(x) => asking(s, f, t1, RequestView::Parse(x), Then::Append),
        ExprView::Variable(n) => match resolve(s.memory.globals, f.locals, n) {
            Some(v) => (resumed(s, f, holding(t1, t.args.push(v))), ActionView::Continue),
            None => failing(s, f, RunErrorKindView::NameError(n), nobody()),
        },
        ExprView::Lineptr(l) => (
            resumed(s, f, holding(t1, t.args.push(ValueView::Lineptr(l)))),
            ActionView::Continue,
        ),
    }
}

/// The task `t`, all of whose arguments are values, is run: first as a
/// builtin, and if its name is no builtin, as a function of the program.
/// `chance` is what a random draw gives.
pub open spec fn applying(s: StateView, f: FrameView, t: TaskView, chance: i64) -> (
    StateView,
    ActionView,
) {
    let e = builtin_effect(s.memory, f.locals, f.lineno, t.name, t.args);
    let s1 = StateView {
        lines: s.lines,
        memory: e.memory,
        frames: s.frames,
        waiting: None,
        result: s.result,
    };
    let f1 = FrameView { locals: e.locals, lineno: f.lineno, next: f.next, tasks: f.tasks };
    match e.outcome {
        OutcomeView::Value(v) => (settling(s1, f1, v), ActionView::Continue),
        OutcomeView::Fail(k) => failing(s1, f1, k, t.command.name),
        OutcomeView::Return(v) => if s1.frames.len() == 0 {
            failing(s1, f1, RunErrorKindView::Return(v), t.command.name)
        } else {
            (returning(s1, v), ActionView::Continue)
        },
        OutcomeView::Jump(l) => (
            settling(
                s1,
                FrameView { locals: f1.locals, lineno: f1.lineno, next: l, tasks: f1.tasks },
                nothing(),
            ),
            ActionView::Continue,
        ),
        OutcomeView::Redirect(n, a) => (
            resumed(
                s1,
                f1,
                TaskView { command: t.command, name: n, args: a, pending: t.pending },
            ),
            ActionView::Continue,
        ),
        OutcomeView::Coerce(i) => if i < t.args.len() && t.args[i as int] is Text {
            asking(s1, f1, t, RequestView::Parse(t.args[i as int]->Text_0), Then::Coerce(i))
        } else {
            failing(s1, f1, RunErrorKindView::IsNotNumber(nothing()), t.command.name)
        },
        OutcomeView::Ask(r, then) => asking(s1, f1, t, r, then),
        OutcomeView::Draw(lo, hi) => if lo <= hi {
            asking(s1, f1, t, RequestView::Convert(chance as i128), Then::Finish)
        } else {
            failing(s1, f1, RunErrorKindView::EmptyRange, t.command.name)
        },
        OutcomeView::Unknown => match call_of(s1.memory, t.name, t.args) {
            Err(k) => failing(s1, f1, k, t.command.name),
            Ok((h, frame)) => (
                StateView {
                    lines: s1.lines,
                    memory: MemoryView {
                        heap: h,
                        globals: s1.memory.globals,
                        functions: s1.memory.functions,
                    },
                    frames: s1.frames.push(having(f1, f1.tasks.push(t))).push(frame),
                    waiting: None,
                    result: s1.result,
                },
                ActionView::Continue,
            ),
        },
    }
}

/// One step of the machine. While a request is open, the step asks again.
/// With no frame left, or the top level past its last line, the program has
/// finished. A frame without tasks takes up its line: an empty line is
/// passed over, a command becomes the first task. Otherwise the innermost
/// task takes up its next argument, or, having them all, is run.
pub open spec fn advance(s: StateView, chance: i64) -> (StateView, ActionView) {
    match s.waiting {
        Some((r, _)) => (s, ActionView::Ask(r)),
        None => if s.frames.len() == 0 {
            (s, ActionView::Finished)
        } else {
            let f = s.frames.last();
            let below = beneath(s);
            if f.tasks.len() == 0 {
                if f.lineno >= s.lines.len() {
                    if below.frames.len() == 0 {
                        (s, ActionView::Finished)
                    } else {
                        failing(below, f, RunErrorKindView::PastEnd, nobody())
                    }
                } else {
                    match s.lines[f.lineno as int] {
                        None => (
                            put(
                                below,
                                FrameView {
                                    locals: f.locals,
                                    lineno: past(f.lineno),
                                    next: past(f.lineno),
                                    tasks: f.tasks,
                                },
                            ),
                            ActionView::Continue,
                        ),
                        Some(c) => (
                            put(
                                below,
                                FrameView {
                                    locals: f.locals,
                                    lineno: f.lineno,
                                    next: past(f.lineno),
                                    tasks: seq![begun(c)],
                                },
                            ),
                            ActionView::Continue,
                        ),
                    }
                }
            } else {
                let t = f.tasks.last();
                let f0 = having(f, f.tasks.drop_last());
                if t.pending < t.command.args.len() {
                    taking(below, f0, t, t.command.args[t.pending as int])
                } else {
                    applying(below, f0, t, chance)
                }
            }
        },
    }
}

/// The range from which the next step draws a random integer, if it draws
/// one.
pub open spec fn drawing(s: StateView) -> Option<(i64, i64)> {
    if s.waiting is None && s.frames.len() > 0 && s.frames.last().tasks.len() > 0 {
        let f = s.frames.last();
        let t = f.tasks.last();
        if t.pending >= t.command.args.len() {
            match builtin_effect(s.memory, f.locals, f.lineno, t.name, t.args).outcome {
                OutcomeView::Draw(lo, hi) => Some((lo, hi)),
                _ => None,
            }
        } else {
            None
        }
    } else {
        None
    }
}

/// A step leads from `pre` to `post` with `action`: it is the step that
/// `advance` describes, for a draw that lies in the range drawn from.
pub open spec fn stepped(pre: StateView, post: StateView, action: ActionView) -> bool {
    exists|chance: i64|
        {
            &&& #[trigger] advance(pre, chance) == (post, action)
            &&& drawing(pre) matches Some((lo, hi)) ==> lo <= hi ==> lo <= chance <= hi
        }
}

/// The reply is of a kind that answers the request.
pub open spec fn fits(request: RequestView, reply: ReplyView) -> bool {
    match request {
        RequestView::Parse(_) => reply is Number || reply is NotANumber,
        RequestView::Write(_, _) => reply is Done || reply is Failure,
        RequestView::ReadLine => reply is Line || reply is Failure,
        _ => reply is Number,
    }
}

/// What the waiting task does with a number from the host.
pub open spec fn receiving(t: TaskView, then: Then, n: NumView) -> TaskView {
    let v = ValueView::Number(n);
    match then {
        Then::Coerce(i) => if i < t.args.len() {
            holding(t, t.args.update(i as int, v))
        } else {
            t
        },
        Then::Reduce => if t.args.len() >= 2 {
            holding(t, seq![v] + t.args.skip(2))
        } else {
            holding(t, seq![v])
        },
        _ => holding(t, t.args.push(v)),
    }
}

/// The value that the host found to be no number.
pub open spec fn unread(t: TaskView, request: RequestView, then: Then) -> ValueView {
    match then {
        Then::Coerce(i) => if i < t.args.len() {
            t.args[i as int]
        } else {
            nothing()
        },
        _ => match request {
            RequestView::Parse(x) => ValueView::Text(x),
            _ => nothing(),
        },
    }
}

/// The host's reply comes in. A reply that does not fit the open request
/// changes nothing, and the request is made again; with no request open,
/// the reply is dropped. A failure of the host, and a text that is no
/// number, fail the waiting command. A number, a line that was read, or the
/// word that the writing is done, is used as the request said.
pub open spec fn answered(s: StateView, reply: ReplyView) -> (StateView, ActionView) {
    match s.waiting {
        None => (s, ActionView::Continue),
        Some((request, then)) => if !fits(request, reply) {
            (s, ActionView::Ask(request))
        } else if s.frames.len() == 0 || s.frames.last().tasks.len() == 0 {
            (
                StateView {
                    lines: s.lines,
                    memory: s.memory,
                    frames: s.frames,
                    waiting: None,
                    result: s.result,
                },
                ActionView::Continue,
            )
        } else {
            let f = s.frames.last();
            let t = f.tasks.last();
            let f0 = having(f, f.tasks.drop_last());
            let below = beneath(s);
            match reply {
                ReplyView::Failure(m) => failing(
                    below,
                    f0,
                    RunErrorKindView::IOError(m),
                    t.command.name,
                ),
                ReplyView::NotANumber => failing(
                    below,
                    f0,
                    RunErrorKindView::IsNotNumber(unread(t, request, then)),
                    t.command.name,
                ),
                ReplyView::Done => (settling(below, f0, nothing()), ActionView::Continue),
                ReplyView::Line(x) => (
                    settling(below, f0, ValueView::Text(x)),
                    ActionView::Continue,
                ),
                ReplyView::Number(n) => if then == Then::Finish {
                    (settling(below, f0, ValueView::Number(n)), ActionView::Continue)
                } else {
                    (resumed(below, f0, receiving(t, then, n)), ActionView::Continue)
                },
            }
        },
    }
}

/// The machine runs from `pre` for at most `budget` steps and stops at the
/// first step that is more than a change of state; `post` and `action` are
/// where and how it stops.
pub open spec fn ran(pre: StateView, post: StateView, action: ActionView, budget: nat) -> bool
    decreases budget,
{
    if budget == 0 {
        post == pre && action == ActionView::Continue
    } else {
        exists|mid: StateView, a: ActionView|
            {
                &&& #[trigger] stepped(pre, mid, a)
                &&& if a is Continue {
                    ran(mid, post, action, (budget - 1) as nat)
                } else {
                    post == mid && action == a
                }
            }
    }
}

/// Enters the function `name` with the arguments `args`: gives the frame in
/// which its body runs, and stores the list of the arguments. Fails when no
/// function bears the name, or when it declares another number of
/// parameters.
pub fn execute_function<'a>(memory: &mut Memory, name: &str, args: &Vec<Value>) -> (r: Result<
    Frame<'a>,
    RunErrorKind,
>)
    ensures
        match r {
            Ok(frame) => call_of(old(memory)@, name@, views(args@)) == Ok::<
                (Seq<Seq<ValueView>>, FrameView),
                RunErrorKindView,
            >((final(memory)@.heap, frame@)),
            Err(kind) => call_of(old(memory)@, name@, views(args@)) == Err::<
                (Seq<Seq<ValueView>>, FrameView),
                RunErrorKindView,
            >(kind@) && final(memory)@.heap == old(memory)@.heap,
        },
        final(memory)@.globals == old(memory)@.globals,
        final(memory)@.functions == old(memory)@.functions,
{
    let function = match memory.functions.get(name) {
        None => {
            return Err(RunErrorKind::NotImplemented);
        },
        Some(f) => f,
    };
    if let Some(params) = &function.arguments {
        if params.len() != args.len() {
            return Err(RunErrorKind::ValueError(params.len()));
        }
    }
    let ghost a = views(args@);
    let handle = memory.heap.len();
    let mut locals: Table<Value> = Table::new();
    locals.insert(".args".to_owned(), Value::List(handle));
    assert(locals@ =~= seq![(".args"@, ValueView::List(handle))]);
    let ghost all = locals@;
    if let Some(params) = &function.arguments {
        let mut i: usize = 0;
        while i < params.len()
            invariant
                i <= params.len(),
                params.len() == args.len(),
                a == views(args@),
                locals@ == bound(all, texts(params@), a, i as int),
            decreases params.len() - i,
        {
            locals.insert(params[i].clone(), args[i].clone());
            i += 1;
        }
    }
    let lineno = function.lineno;
    let tasks: Vec<Task<'a>> = Vec::new();
    assert(task_views(tasks@) =~= Seq::<TaskView>::empty());
    let frame = Frame { locals, lineno, next: lineno, tasks };
    memory.heap.store(crate::value::clone_values(args));
    Ok(frame)
}

/// `fastrand::i64` on an inclusive range: a random integer that is not
/// below `lo` and not above `hi`.
#[verifier::external_body]
fn random_between(lo: i64, hi: i64) -> (r: i64)
    requires
        lo <= hi,
    ensures
        lo <= r <= hi,
{
    fastrand::i64(lo..=hi)
}

impl<'a> State<'a> {
    /// The state in which the program `lines` starts.
    pub fn new(lines: &'a Vec<Option<Command>>) -> (r: State<'a>)
        ensures
            r@ == initial(program_view(lines@)),
    {
        let tasks: Vec<Task<'a>> = Vec::new();
        assert(task_views(tasks@) =~= Seq::<TaskView>::empty());
        let first = Frame { locals: Table::new(), lineno: 0, next: 0, tasks };
        let mut frames: Vec<Frame<'a>> = Vec::new();
        frames.push(first);
        assert(frame_views(frames@) =~= seq![ground(0)]);
        State {
            lines,
            memory: Memory { heap: crate::value::Heap::new(), globals: Table::new(), functions: Table::new() },
            frames,
            waiting: None,
            result: Value::default(),
        }
    }

    /// The state in which the program `lines` starts with what an earlier
    /// run left: its memory, and the locals of its top level.
    pub fn with(lines: &'a Vec<Option<Command>>, memory: Memory, locals: Table<Value>) -> (r: State<
        'a,
    >)
        ensures
            r@ == (StateView {
                lines: program_view(lines@),
                memory: memory@,
                frames: seq![
                    FrameView { locals: locals@, lineno: 0, next: 0, tasks: Seq::empty() },
                ],
                waiting: None,
                result: nothing(),
            }),
    {
        let tasks: Vec<Task<'a>> = Vec::new();
        assert(task_views(tasks@) =~= Seq::<TaskView>::empty());
        let first = Frame { locals, lineno: 0, next: 0, tasks };
        let mut frames: Vec<Frame<'a>> = Vec::new();
        frames.push(first);
        assert(frame_views(frames@) =~= seq![
            FrameView { locals: locals@, lineno: 0, next: 0, tasks: Seq::empty() },
        ]);
        State { lines, memory, frames, waiting: None, result: Value::default() }
    }

    /// What the run leaves for a later one: its memory, and the locals of
    /// its top level.
    pub fn into_parts(self) -> (r: (Memory, Table<Value>))
        ensures
            r.0@ == self@.memory,
            r.1@ == (if self@.frames.len() > 0 {
                self@.frames[0].locals
            } else {
                Seq::empty()
            }),
    {
        let mut frames = self.frames;
        let ghost before = frame_views(frames@);
        let locals = if frames.len() > 0 {
            let first = frames.remove(0);
            assert(first@ == before[0]);
            first.locals
        } else {
            Table::new()
        };
        (self.memory, locals)
    }

    /// The lists, the globals and the functions.
    pub fn memory(&self) -> (m: &Memory)
        ensures
            m@ == self@.memory,
    {
        &self.memory
    }

    /// The value of the line that ended last.
    pub fn result(&self) -> (v: &Value)
        ensures
            v@ == self@.result,
    {
        &self.result
    }

    /// How many functions are running, the top level counted as one.
    pub fn depth(&self) -> (n: usize)
        ensures
            n == self@.frames.len(),
    {
        self.frames.len()
    }

    /// The run fails in `frame`, which has been taken off the frames.
    fn fail(&mut self, frame: Frame<'a>, kind: RunErrorKind, function: String) -> (action: Action)
        ensures
            (final(self)@, action@) == failing(old(self)@, frame@, kind@, function@),
    {
        let mut e = RunError { line: frame.lineno, function, inner: kind };
        let mut locals = frame.locals;
        let ghost callers = self@.frames;
        assert(callers.take(callers.len() as int) =~= callers);
        while self.frames.len() > 0
            invariant
                self.frames.len() <= callers.len(),
                frame_views(self.frames@) == callers.take(self.frames.len() as int),
                wrapped(callers, RunErrorView { line: frame.lineno, function: function@, inner: kind@ })
                    == wrapped(frame_views(self.frames@), e@),
                locals@ == (if self.frames.len() < callers.len() {
                    callers[self.frames.len() as int].locals
                } else {
                    frame.locals@
                }),
                self.lines == old(self).lines,
                self.memory == old(self).memory,
                self.result == old(self).result,
            decreases self.frames.len(),
        {
            let ghost before = frame_views(self.frames@);
            let c = self.frames.pop().unwrap();
            assert(frame_views(self.frames@) =~= before.drop_last());
            assert(before.drop_last() =~= callers.take(self.frames.len() as int));
            assert(c@ == before.last());
            let name = if c.tasks.len() > 0 {
                c.tasks[c.tasks.len() - 1].command.name.clone()
            } else {
                "n/a".to_owned()
            };
            e = RunError { line: c.lineno, function: name, inner: RunErrorKind::Wrap(Box::new(e)) };
            locals = c.locals;
        }
        let end = self.lines.len();
        let tasks: Vec<Task<'a>> = Vec::new();
        assert(task_views(tasks@) =~= Seq::<TaskView>::empty());
        self.frames.push(Frame { locals, lineno: end, next: end, tasks });
        self.waiting = None;
        assert(frame_views(self.frames@) =~= seq![
            FrameView {
                locals: if callers.len() > 0 {
                    callers[0].locals
                } else {
                    frame.locals@
                },
                lineno: end,
                next: end,
                tasks: Seq::empty(),
            },
        ]);
        Action::Failed(e)
    }

    /// A command of `frame`, which has been taken off the frames, has come
    /// to the value `v`.
    fn settle(&mut self, frame: Frame<'a>, v: Value)
        ensures
            final(self)@ == settling(old(self)@, frame@, v@),
    {
        let mut frame = frame;
        let ghost before = frame@;
        let ghost below = frame_views(self.frames@);
        match frame.tasks.pop() {
            None => {
                frame.lineno = frame.next;
                self.result = v;
                assert(task_views(frame.tasks@) =~= before.tasks);
            },
            Some(p) => {
                let mut p = p;
                let ghost waiting = p@;
                assert(waiting == before.tasks.last());
                assert(task_views(frame.tasks@) =~= before.tasks.drop_last());
                p.args.push(v);
                assert(views(p.args@) =~= waiting.args.push(v@));
                frame.tasks.push(p);
                assert(task_views(frame.tasks@) =~= before.tasks.drop_last().push(p@));
            },
        }
        self.frames.push(frame);
        self.waiting = None;
        assert(frame_views(self.frames@) =~= below.push(frame@));
    }

    /// The innermost function, whose frame has been taken off the frames,
    /// returns `v` to its caller.
    fn give_back(&mut self, v: Value)
        requires
            old(self)@.frames.len() > 0,
        ensures
            final(self)@ == returning(old(self)@, v@),
    {
        let ghost before = frame_views(self.frames@);
        let mut caller = self.frames.pop().unwrap();
        assert(frame_views(self.frames@) =~= before.drop_last());
        assert(caller@ == before.last());
        let ghost tasks = caller@.tasks;
        if caller.tasks.len() > 0 {
            caller.tasks.pop();
            assert(task_views(caller.tasks@) =~= tasks.drop_last());
        }
        self.waiting = None;
        self.settle(caller, v);
    }
}

impl<'a> State<'a> {
    /// The task goes back on the frame, and the frame on the frames.
    fn resume(&mut self, frame: Frame<'a>, task: Task<'a>)
        ensures
            final(self)@ == resumed(old(self)@, frame@, task@),
    {
        let mut frame = frame;
        let ghost below = frame_views(self.frames@);
        let ghost tasks = task_views(frame.tasks@);
        frame.tasks.push(task);
        assert(task_views(frame.tasks@) =~= tasks.push(task@));
        self.frames.push(frame);
        assert(frame_views(self.frames@) =~= below.push(frame@));
        self.waiting = None;
    }

    /// The host is asked, and the task waits for the reply.
    fn ask(&mut self, frame: Frame<'a>, task: Task<'a>, request: Request, then: Then) -> (action:
        Action)
        ensures
            (final(self)@, action@) == asking(old(self)@, frame@, task@, request@, then),
    {
        let again = request.clone();
        self.resume(frame, task);
        self.waiting = Some((request, then));
        Action::Ask(again)
    }

    /// The task takes up its next argument expression.
    fn take_up(&mut self, frame: Frame<'a>, task: Task<'a>) -> (action: Action)
        requires
            task.pending < task.command.args.len(),
        ensures
            (final(self)@, action@) == taking(
                old(self)@,
                frame@,
                task@,
                task.command@.args[task.pending as int],
            ),
    {
        let mut frame = frame;
        let mut task = task;
        let ghost t = task@;
        let ghost below = frame_views(self.frames@);
        let ghost tasks = task_views(frame.tasks@);
        let command: &'a Command = task.command;
        let e: &'a Expr = &command.args[task.pending];
        task.pending = task.pending + 1;
        self.waiting = None;
        match e {
            Expr::Command(c) => {
                proof {
                    crate::parse::lemma_command_view(*c);
                }
                let args: Vec<Value> = Vec::new();
                assert(views(args@) =~= Seq::<ValueView>::empty());
                let sub = Task { command: c, name: c.name.clone(), args, pending: 0 };
                frame.tasks.push(task);
                frame.tasks.push(sub);
                assert(task_views(frame.tasks@) =~= tasks.push(task@).push(begun(c@)));
                self.frames.push(frame);
                assert(frame_views(self.frames@) =~= below.push(frame@));
                Action::Continue
            },
            Expr::Literal(x) => {
                task.args.push(Value::String(x.clone()));
                assert(views(task.args@) =~= t.args.push(ValueView::Text(x@)));
                self.resume(frame, task);
                Action::Continue
            },
            Expr::Number(x) => self.ask(frame, task, Request::Parse(x.clone()), Then::Append),
            Expr::Variable(n) => {
                match find(&self.memory.globals, &frame.locals, n.as_str()) {
                    Some(v) => {
                        let v = v.clone();
                        task.args.push(v);
                        assert(views(task.args@) =~= t.args.push(v@));
                        self.resume(frame, task);
                        Action::Continue
                    },
                    None => self.fail(
                        frame,
                        RunErrorKind::NameError(n.clone()),
                        "n/a".to_owned(),
                    ),
                }
            },
            Expr::Lineptr(l) => {
                task.args.push(Value::Lineptr(*l));
                assert(views(task.args@) =~= t.args.push(ValueView::Lineptr(*l)));
                self.resume(frame, task);
                Action::Continue
            },
        }
    }

    /// The task, all of whose arguments are values, is run.
    fn apply(&mut self, frame: Frame<'a>, task: Task<'a>) -> (r: (Action, Ghost<i64>))
        ensures
            (final(self)@, r.0@) == applying(old(self)@, frame@, task@, r.1@),
            builtin_effect(old(self)@.memory, frame@.locals, frame@.lineno, task@.name, task@.args).outcome
                matches OutcomeView::Draw(lo, hi) ==> lo <= hi ==> lo <= r.1@ <= hi,
    {
        let mut frame = frame;
        let mut task = task;
        let ghost below = frame_views(self.frames@);
        let ghost tasks = task_views(frame.tasks@);
        self.waiting = None;
        let outcome = builtins(
            &mut self.memory,
            &mut frame.locals,
            frame.lineno,
            task.name.as_str(),
            &task.args,
        );
        match outcome {
            Outcome::Value(v) => {
                self.settle(frame, v);
                (Action::Continue, Ghost(0))
            },
            Outcome::Fail(k) => (self.fail(frame, k, task.command.name.clone()), Ghost(0)),
            Outcome::Return(v) => {
                if self.frames.len() == 0 {
                    (
                        self.fail(frame, RunErrorKind::Return(v), task.command.name.clone()),
                        Ghost(0),
                    )
                } else {
                    self.give_back(v);
                    (Action::Continue, Ghost(0))
                }
            },
            Outcome::Jump(l) => {
                frame.next = l;
                self.settle(frame, Value::default());
                (Action::Continue, Ghost(0))
            },
            Outcome::Redirect(n, a) => {
                task.name = n;
                task.args = a;
                self.resume(frame, task);
                (Action::Continue, Ghost(0))
            },
            Outcome::Coerce(i) => {
                if i < task.args.len() {
                    if let Value::String(x) = &task.args[i] {
                        let request = Request::Parse(x.clone());
                        return (self.ask(frame, task, request, Then::Coerce(i)), Ghost(0));
                    }
                }
                (
                    self.fail(
                        frame,
                        RunErrorKind::IsNotNumber(Value::default()),
                        task.command.name.clone(),
                    ),
                    Ghost(0),
                )
            },
            Outcome::Ask(request, then) => (self.ask(frame, task, request, then), Ghost(0)),
            Outcome::Draw(lo, hi) => {
                if lo <= hi {
                    let drawn = random_between(lo, hi);
                    (
                        self.ask(frame, task, Request::Convert(drawn as i128), Then::Finish),
                        Ghost(drawn),
                    )
                } else {
                    (self.fail(frame, RunErrorKind::EmptyRange, task.command.name.clone()), Ghost(0))
                }
            },
            Outcome::Unknown => {
                match execute_function(&mut self.memory, task.name.as_str(), &task.args) {
                    Err(k) => (self.fail(frame, k, task.command.name.clone()), Ghost(0)),
                    Ok(entered) => {
                        frame.tasks.push(task);
                        assert(task_views(frame.tasks@) =~= tasks.push(task@));
                        self.frames.push(frame);
                        self.frames.push(entered);
                        assert(frame_views(self.frames@) =~= below.push(frame@).push(entered@));
                        (Action::Continue, Ghost(0))
                    },
                }
            },
        }
    }

    /// One step of the machine.
    pub fn step(&mut self) -> (action: Action)
        ensures
            stepped(old(self)@, final(self)@, action@),
    {
        if let Some((request, _)) = &self.waiting {
            let action = Action::Ask(request.clone());
            assert(advance(self@, 0) == (self@, action@));
            return action;
        }
        let ghost frames = frame_views(self.frames@);
        let mut frame = match self.frames.pop() {
            Some(f) => f,
            None => {
                assert(advance(old(self)@, 0) == (self@, ActionView::Finished));
                return Action::Finished;
            },
        };
        assert(frame_views(self.frames@) =~= frames.drop_last());
        assert(frame@ == frames.last());
        assert(self@ == beneath(old(self)@));
        let ghost tasks = task_views(frame.tasks@);
        match frame.tasks.pop() {
            None => {
                if frame.lineno >= self.lines.len() {
                    if self.frames.len() == 0 {
                        self.frames.push(frame);
                        assert(frame_views(self.frames@) =~= frames);
                        assert(advance(old(self)@, 0) == (self@, ActionView::Finished));
                        Action::Finished
                    } else {
                        let action = self.fail(frame, RunErrorKind::PastEnd, "n/a".to_owned());
                        assert(advance(old(self)@, 0) == (self@, action@));
                        action
                    }
                } else {
                    let lines: &'a Vec<Option<Command>> = self.lines;
                    match &lines[frame.lineno] {
                        None => {
                            frame.lineno = frame.lineno + 1;
                            frame.next = frame.lineno;
                            assert(task_views(frame.tasks@) =~= tasks);
                            let ghost below = frame_views(self.frames@);
                            self.frames.push(frame);
                            assert(frame_views(self.frames@) =~= below.push(frame@));
                            assert(advance(old(self)@, 0) == (self@, ActionView::Continue));
                            Action::Continue
                        },
                        Some(c) => {
                            let args: Vec<Value> = Vec::new();
                            assert(views(args@) =~= Seq::<ValueView>::empty());
                            frame.next = frame.lineno + 1;
                            frame.tasks.push(Task { command: c, name: c.name.clone(), args, pending: 0 });
                            assert(task_views(frame.tasks@) =~= seq![begun(c@)]);
                            let ghost below = frame_views(self.frames@);
                            self.frames.push(frame);
                            assert(frame_views(self.frames@) =~= below.push(frame@));
                            assert(advance(old(self)@, 0) == (self@, ActionView::Continue));
                            Action::Continue
                        },
                    }
                }
            },
            Some(task) => {
                assert(task_views(frame.tasks@) =~= tasks.drop_last());
                assert(task@ == tasks.last());
                if task.pending < task.command.args.len() {
                    let action = self.take_up(frame, task);
                    assert(advance(old(self)@, 0) == (self@, action@));
                    action
                } else {
                    let (action, Ghost(chance)) = self.apply(frame, task);
                    assert(advance(old(self)@, chance) == (self@, action@));
                    action
                }
            },
        }
    }
}

fn reply_fits(request: &Request, reply: &Reply) -> (r: bool)
    ensures
        r == fits(request@, reply@),
{
    match request {
        Request::Parse(_) => match reply {
            Reply::Number(_) => true,
            Reply::NotANumber => true,
            _ => false,
        },
        Request::Write(_, _) => match reply {
            Reply::Done => true,
            Reply::Failure(_) => true,
            _ => false,
        },
        Request::ReadLine => match reply {
            Reply::Line(_) => true,
            Reply::Failure(_) => true,
            _ => false,
        },
        _ => match reply {
            Reply::Number(_) => true,
            _ => false,
        },
    }
}

fn receive(task: &mut Task, then: Then, n: Num)
    ensures
        final(task)@ == receiving(old(task)@, then, n@),
{
    let ghost before = task@;
    let v = Value::Number(n);
    match then {
        Then::Coerce(i) => {
            if i < task.args.len() {
                task.args.set(i, v);
                assert(views(task.args@) =~= before.args.update(i as int, v@));
            }
        },
        Then::Reduce => {
            if task.args.len() >= 2 {
                task.args.remove(0);
                task.args.set(0, v);
                assert(views(task.args@) =~= seq![v@] + before.args.skip(2));
            } else {
                let mut args: Vec<Value> = Vec::new();
                args.push(v);
                assert(views(args@) =~= seq![v@]);
                task.args = args;
            }
        },
        _ => {
            task.args.push(v);
            assert(views(task.args@) =~= before.args.push(v@));
        },
    }
}

fn unread_value(task: &Task, request: &Request, then: Then) -> (v: Value)
    ensures
        v@ == unread(task@, request@, then),
{
    match then {
        Then::Coerce(i) => {
            if i < task.args.len() {
                task.args[i].clone()
            } else {
                Value::default()
            }
        },
        _ => match request {
            Request::Parse(x) => Value::String(x.clone()),
            _ => Value::default(),
        },
    }
}

impl<'a> State<'a> {
    /// Takes the host's reply to the open request.
    pub fn answer(&mut self, reply: Reply) -> (action: Action)
        ensures
            (final(self)@, action@) == answered(old(self)@, reply@),
    {
        let (request, then) = match self.waiting.take() {
            None => {
                return Action::Continue;
            },
            Some(w) => w,
        };
        if !reply_fits(&request, &reply) {
            let again = request.clone();
            self.waiting = Some((request, then));
            return Action::Ask(again);
        }
        let ghost frames = frame_views(self.frames@);
        let mut frame = match self.frames.pop() {
            Some(f) => f,
            None => {
                return Action::Continue;
            },
        };
        assert(frame_views(self.frames@) =~= frames.drop_last());
        assert(frame@ == frames.last());
        let ghost tasks = task_views(frame.tasks@);
        let mut task = match frame.tasks.pop() {
            Some(t) => t,
            None => {
                assert(task_views(frame.tasks@) =~= tasks);
                self.frames.push(frame);
                assert(frame_views(self.frames@) =~= frames);
                return Action::Continue;
            },
        };
        assert(task_views(frame.tasks@) =~= tasks.drop_last());
        assert(task@ == tasks.last());
        match reply {
            Reply::Failure(m) => self.fail(frame, RunErrorKind::IOError(m), task.command.name.clone()),
            Reply::NotANumber => {
                let v = unread_value(&task, &request, then);
                self.fail(frame, RunErrorKind::IsNotNumber(v), task.command.name.clone())
            },
            Reply::Done => {
                self.settle(frame, Value::default());
                Action::Continue
            },
            Reply::Line(x) => {
                self.settle(frame, Value::String(x));
                Action::Continue
            },
            Reply::Number(n) => {
                if then == Then::Finish {
                    self.settle(frame, Value::Number(n));
                } else {
                    receive(&mut task, then, n);
                    self.resume(frame, task);
                }
                Action::Continue
            },
        }
    }
}

/// Runs the machine for at most `budget` steps, and stops before that at
/// the first step that asks the host, finishes or fails. `Continue` says
/// that the budget is spent and the program has more to do.
pub fn execute(state: &mut State, budget: usize) -> (action: Action)
    ensures
        ran(old(state)@, final(state)@, action@, budget as nat),
{
    let mut left = budget;
    while left > 0
        invariant
            forall|post: StateView, a: ActionView|
                ran(state@, post, a, left as nat) ==> ran(old(state)@, post, a, budget as nat),
        decreases left,
    {
        let ghost before = state@;
        let action = state.step();
        match action {
            Action::Continue => {},
            other => {
                assert(ran(before, state@, other@, left as nat));
                return other;
            },
        }
        left -= 1;
        assert forall|post: StateView, a: ActionView|
            ran(state@, post, a, left as nat) implies ran(old(state)@, post, a, budget as nat) by {
            assert(stepped(before, state@, ActionView::Continue));
            assert(ran(before, post, a, (left + 1) as nat));
        }
    }
    Action::Continue
}

/// A return ends the scope of the call and nothing else. `s` holds the
/// frames of the callers. After the return the frames are those of the
/// callers, each with the locals it had: none of the locals of the call is
/// left. The globals, the functions and the lists are as the call left them.
/// Every frame but that of the caller is as it was, line and all; the caller
/// stays at its line while a command of that line waits for the value, and
/// moves to its next line when the call was the whole line.
pub proof fn lemma_return_ends_the_scope(s: StateView, v: ValueView)
    requires
        s.frames.len() > 0,
    ensures
        returning(s, v).memory == s.memory,
        returning(s, v).frames.len() == s.frames.len(),
        forall|d: int|
            0 <= d < s.frames.len() ==> (#[trigger] returning(s, v).frames[d]).locals
                == s.frames[d].locals,
        forall|d: int|
            0 <= d < s.frames.len() - 1 ==> #[trigger] returning(s, v).frames[d] == s.frames[d],
        returning(s, v).frames.last().lineno == (if s.frames.last().tasks.len() > 1 {
            s.frames.last().lineno
        } else {
            s.frames.last().next
        }),
{
    let c = s.frames.last();
    let below = s.frames.drop_last();
    let r = returning(s, v);
    assert(r.frames.len() == below.len() + 1);
    assert forall|d: int| 0 <= d < s.frames.len() implies (#[trigger] r.frames[d]).locals
        == s.frames[d].locals by {
        if d < below.len() {
            assert(r.frames[d] == below[d]);
        }
    }
    assert forall|d: int| 0 <= d < s.frames.len() - 1 implies #[trigger] r.frames[d]
        == s.frames[d] by {
        assert(r.frames[d] == below[d]);
    }
}

/// An error ends the run and keeps what was done. After a failure in frame
/// `f`, whose callers are the frames of `s`, the memory is as it was, and
/// the one frame left is the top level with the locals it had and nothing
/// more to run.
pub proof fn lemma_failure_keeps_what_was_done(
    s: StateView,
    f: FrameView,
    kind: RunErrorKindView,
    function: Seq<char>,
)
    ensures
        failing(s, f, kind, function).0.memory == s.memory,
        failing(s, f, kind, function).0.frames.len() == 1,
        failing(s, f, kind, function).0.frames[0].tasks.len() == 0,
        failing(s, f, kind, function).0.frames[0].lineno == s.lines.len() as usize,
        failing(s, f, kind, function).0.frames[0].locals == (if s.frames.len() > 0 {
            s.frames[0].locals
        } else {
            f.locals
        }),
        failing(s, f, kind, function).1 is Failed,
{
}

/// The command that the next step runs, if the next step runs one: the
/// innermost command of the innermost frame, once all its arguments are
/// values.
pub open spec fn running(s: StateView) -> Option<TaskView> {
    if s.waiting is None && s.frames.len() > 0 && s.frames.last().tasks.len() > 0
        && s.frames.last().tasks.last().pending >= s.frames.last().tasks.last().command.args.len() {
        Some(s.frames.last().tasks.last())
    } else {
        None
    }
}

/// Variables change by `set` alone, and each scope by its own names. A step
/// leaves the globals as they were, unless it runs a `set` of a name without
/// the dot. It leaves the locals of every caller as they were, whatever it
/// runs. And it leaves the locals of the innermost frame as they were,
/// unless it runs a `set` of a name with the dot. So a write to a local
/// inside a call reaches neither the globals nor the locals of a caller, and
/// a write to a global inside a call stays: no later step takes it back.
pub proof fn lemma_steps_write_by_set(s: StateView, chance: i64)
    ensures
        advance(s, chance).0.memory.globals == (match running(s) {
            Some(t) => match global_write(s.memory.heap, t.name, t.args) {
                Some((n, v)) => assign(s.memory.globals, n, v),
                None => s.memory.globals,
            },
            None => s.memory.globals,
        }),
        forall|d: int|
            0 <= d < s.frames.len() - 1 && d < advance(s, chance).0.frames.len() ==> (
            #[trigger] advance(s, chance).0.frames[d]).locals == s.frames[d].locals,
        s.frames.len() > 0 && advance(s, chance).0.frames.len() >= s.frames.len() ==> advance(
            s,
            chance,
        ).0.frames[s.frames.len() - 1].locals == (match running(s) {
            Some(t) => match local_write(s.memory.heap, t.name, t.args) {
                Some((n, v)) => assign(s.frames.last().locals, n, v),
                None => s.frames.last().locals,
            },
            None => s.frames.last().locals,
        }),
{
    if s.waiting is None && s.frames.len() > 0 {
        let f = s.frames.last();
        let below = beneath(s);
        let top = s.frames.len() - 1;
        assert(below.frames.len() == top);
        assert forall|d: int| 0 <= d < top implies #[trigger] below.frames[d] == s.frames[d] by {}
        if f.tasks.len() > 0 {
            let t = f.tasks.last();
            let f0 = having(f, f.tasks.drop_last());
            if t.pending >= t.command.args.len() {
                lemma_only_set_writes(s.memory, f.locals, f.lineno, t.name, t.args);
                let e = builtin_effect(s.memory, f.locals, f.lineno, t.name, t.args);
                let s2 = advance(s, chance).0;
                assert(advance(s, chance) == applying(below, f0, t, chance));
                assert(s2.memory.globals == e.memory.globals);
                assert forall|d: int| 0 <= d < top && d < s2.frames.len() implies (
                #[trigger] s2.frames[d]).locals == s.frames[d].locals by {
                    assert(below.frames[d] == s.frames[d]);
                }
                if s2.frames.len() >= s.frames.len() {
                    assert(s2.frames[top].locals == e.locals);
                }
            } else {
                let s2 = advance(s, chance).0;
                assert(advance(s, chance) == taking(
                    below,
                    f0,
                    t,
                    t.command.args[t.pending as int],
                ));
                assert forall|d: int| 0 <= d < top && d < s2.frames.len() implies (
                #[trigger] s2.frames[d]).locals == s.frames[d].locals by {
                    assert(below.frames[d] == s.frames[d]);
                }
            }
        } else {
            let s2 = advance(s, chance).0;
            assert forall|d: int| 0 <= d < top && d < s2.frames.len() implies (
            #[trigger] s2.frames[d]).locals == s.frames[d].locals by {
                assert(below.frames[d] == s.frames[d]);
            }
        }
    }
}

/// Calls nest like a stack. A step that does not fail enters one call,
/// or returns from the innermost call to its caller, or stays in the frame:
/// the number of frames grows by one, shrinks by one, or stays. So a call
/// returns only after every call made inside it has returned. A step that
/// fails leaves the top level alone.
pub proof fn lemma_frames_are_a_stack(s: StateView, chance: i64)
    ensures
        advance(s, chance).1 is Failed ==> advance(s, chance).0.frames.len() == 1,
        !(advance(s, chance).1 is Failed) ==> {
            let n = advance(s, chance).0.frames.len();
            n == s.frames.len() || n == s.frames.len() + 1 || n == s.frames.len() - 1
        },
{
    if s.waiting is None && s.frames.len() > 0 {
        let f = s.frames.last();
        let below = beneath(s);
        assert(below.frames.len() == s.frames.len() - 1);
        if f.tasks.len() > 0 {
            let t = f.tasks.last();
            let f0 = having(f, f.tasks.drop_last());
            if t.pending >= t.command.args.len() {
                assert(advance(s, chance) == applying(below, f0, t, chance));
            } else {
                assert(advance(s, chance) == taking(
                    below,
                    f0,
                    t,
                    t.command.args[t.pending as int],
                ));
            }
        }
    }
}

/// A jump takes effect when the line is done: a frame with no command
/// left waiting goes on at the line that the jump named.
pub proof fn lemma_jump_moves_the_line(s: StateView, f: FrameView, target: usize)
    requires
        f.tasks.len() == 0,
    ensures
        settling(
            s,
            FrameView { locals: f.locals, lineno: f.lineno, next: target, tasks: f.tasks },
            nothing(),
        ).frames.last().lineno == target,
{
}

/// A function with declared parameters takes exactly as many arguments:
/// with any other number the call fails, and the error names the number of
/// parameters.
pub proof fn lemma_call_counts_arguments(
    m: MemoryView,
    name: Seq<char>,
    args: Seq<ValueView>,
    f: FunctionView,
)
    requires
        lookup(m.functions, name) == Some(f),
        f.arguments matches Some(params) && params.len() != args.len(),
    ensures
        call_of(m, name, args) == Err::<(Seq<Seq<ValueView>>, FrameView), RunErrorKindView>(
            RunErrorKindView::ValueError(f.arguments->0.len() as usize),
        ),
{
}

/// The line of a frame is an `if` or a `while` whose condition has been
/// evaluated to the number `n`, and whose block ends at line `target`.
pub open spec fn at_condition(s: StateView, n: NumView, target: usize) -> bool {
    &&& s.waiting is None
    &&& s.frames.len() > 0
    &&& s.frames.last().tasks.len() == 1
    &&& ({
        let t = s.frames.last().tasks[0];
        &&& t.pending >= t.command.args.len()
        &&& (t.name == "if"@ || t.name == "while"@)
        &&& t.args == seq![ValueView::Number(n), ValueView::Lineptr(target)]
    })
}

/// The line of a frame is the `end` of a `while` that stands at line
/// `target`.
pub open spec fn at_loop_end(s: StateView, target: usize) -> bool {
    &&& s.waiting is None
    &&& s.frames.len() > 0
    &&& s.frames.last().tasks.len() == 1
    &&& ({
        let t = s.frames.last().tasks[0];
        &&& t.pending >= t.command.args.len()
        &&& t.name == "end while"@
        &&& t.args == seq![ValueView::Lineptr(target)]
    })
}

/// A condition that is zero skips its block, and any other enters it: the
/// step that runs an `if` or a `while` leaves the frame at the line after
/// the `end` of the block when the condition is zero, so that no line of
/// the block runs, and at the next line when it is not.
pub proof fn lemma_condition_chooses_the_line(s: StateView, n: NumView, target: usize, chance: i64)
    requires
        at_condition(s, n, target),
    ensures
        advance(s, chance).1 == ActionView::Continue,
        advance(s, chance).0.frames.len() == s.frames.len(),
        advance(s, chance).0.frames.last().tasks.len() == 0,
        advance(s, chance).0.frames.last().lineno == (if is_zero(n.bits) {
            past(target)
        } else {
            s.frames.last().next
        }),
{
    let f = s.frames.last();
    let t = f.tasks[0];
    let below = beneath(s);
    let f0 = having(f, f.tasks.drop_last());
    assert(t == f.tasks.last());
    assert(t.args.last() == ValueView::Lineptr(target));
    assert(t.args.drop_last() =~= seq![ValueView::Number(n)]);
    lemma_conditions_steer(s.memory.functions, s.memory.heap, f.lineno, n, target);
    assert(advance(s, chance) == applying(below, f0, t, chance));
}

/// The `end` of a `while` sends the run back to the `while`, whose
/// condition is then evaluated again.
pub proof fn lemma_loop_end_goes_back(s: StateView, target: usize, chance: i64)
    requires
        at_loop_end(s, target),
    ensures
        advance(s, chance).1 == ActionView::Continue,
        advance(s, chance).0.frames.len() == s.frames.len(),
        advance(s, chance).0.frames.last().tasks.len() == 0,
        advance(s, chance).0.frames.last().lineno == target,
{
    let f = s.frames.last();
    let t = f.tasks[0];
    let below = beneath(s);
    let f0 = having(f, f.tasks.drop_last());
    assert(t == f.tasks.last());
    assert(t.args.last() == ValueView::Lineptr(target));
    assert(t.args.drop_last() =~= Seq::<ValueView>::empty());
    lemma_conditions_steer(
        s.memory.functions,
        s.memory.heap,
        f.lineno,
        NumView { bits: 0, text: Seq::empty() },
        target,
    );
    assert(advance(s, chance) == applying(below, f0, t, chance));
}

} // verus!
