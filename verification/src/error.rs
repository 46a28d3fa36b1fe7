//! Run-time errors and their messages.

use vstd::prelude::*;
use crate::text::{decimal_text, push_decimal, push_str};
use crate::value::{text_of, Heap, Value, ValueView, DEPTH_LIMIT};

verus! {

/// An error together with the place at which it came up.
#[derive(PartialEq, Debug)]
pub struct RunError {
    /// The line that was running.
    pub line: usize,
    /// The command that was running.
    pub function: String,
    /// What went wrong.
    pub inner: RunErrorKind,
}

/// What can go wrong while a program runs.
#[derive(PartialEq, Debug)]
pub enum RunErrorKind {
    /// An error inside a called function, with its own place.
    Wrap(Box<RunError>),
    /// A value was returned where no function was running.
    Return(Value),
    /// The command takes this many arguments, and got another number.
    ValueError(usize),
    /// No builtin and no function bears the name.
    NotImplemented,
    /// No variable bears the name.
    NameError(String),
    /// A function of this name exists already.
    FuncDefined(String),
    /// The value cannot be read as a number.
    IsNotNumber(Value),
    /// The value is no list.
    IsNotList(Value),
    /// Reading or writing failed.
    IOError(String),
    /// A position 0 was given; positions count from 1.
    ZeroIndex,
    /// The position, counted from 0, lies outside a list of this length.
    IndexError(usize, usize),
    /// `pop` on an empty list.
    PopError,
    /// The text is not exactly one character long.
    OrdError(String),
    /// The number is no Unicode scalar value.
    ChrError(u32),
    /// An error that the program raised itself.
    UserError(String),
    /// A block command stood inside another command.
    MustBeTopLevel,
    /// Lists are nested deeper than the machine follows them.
    TooDeep,
    /// A random number was asked from an empty range.
    EmptyRange,
    /// A function ran past the last line of the program.
    PastEnd,
}

/// The mathematical content of a [`RunError`].
pub struct RunErrorView {
    pub line: usize,
    pub function: Seq<char>,
    pub inner: RunErrorKindView,
}

/// The mathematical content of a [`RunErrorKind`].
pub enum RunErrorKindView {
    Wrap(Box<RunErrorView>),
    Return(ValueView),
    ValueError(usize),
    NotImplemented,
    NameError(Seq<char>),
    FuncDefined(Seq<char>),
    IsNotNumber(ValueView),
    IsNotList(ValueView),
    IOError(Seq<char>),
    ZeroIndex,
    IndexError(usize, usize),
    PopError,
    OrdError(Seq<char>),
    ChrError(u32),
    UserError(Seq<char>),
    MustBeTopLevel,
    TooDeep,
    EmptyRange,
    PastEnd,
}

/// The content of an error.
pub open spec fn error_view(e: RunError) -> RunErrorView
    decreases e,
{
    RunErrorView { line: e.line, function: e.function@, inner: kind_view(e.inner) }
}

/// The content of an error kind.
pub open spec fn kind_view(k: RunErrorKind) -> RunErrorKindView
    decreases k,
{
    match k {
        RunErrorKind::Wrap(e) => RunErrorKindView::Wrap(Box::new(error_view(*e))),
        RunErrorKind::Return(v) => RunErrorKindView::Return(v@),
        RunErrorKind::ValueError(n) => RunErrorKindView::ValueError(n),
        RunErrorKind::NotImplemented => RunErrorKindView::NotImplemented,
        RunErrorKind::NameError(s) => RunErrorKindView::NameError(s@),
        RunErrorKind::FuncDefined(s) => RunErrorKindView::FuncDefined(s@),
        RunErrorKind::IsNotNumber(v) => RunErrorKindView::IsNotNumber(v@),
        RunErrorKind::IsNotList(v) => RunErrorKindView::IsNotList(v@),
        RunErrorKind::IOError(s) => RunErrorKindView::IOError(s@),
        RunErrorKind::ZeroIndex => RunErrorKindView::ZeroIndex,
        RunErrorKind::IndexError(i, n) => RunErrorKindView::IndexError(i, n),
        RunErrorKind::PopError => RunErrorKindView::PopError,
        RunErrorKind::OrdError(s) => RunErrorKindView::OrdError(s@),
        RunErrorKind::ChrError(n) => RunErrorKindView::ChrError(n),
        RunErrorKind::UserError(s) => RunErrorKindView::UserError(s@),
        RunErrorKind::MustBeTopLevel => RunErrorKindView::MustBeTopLevel,
        RunErrorKind::TooDeep => RunErrorKindView::TooDeep,
        RunErrorKind::EmptyRange => RunErrorKindView::EmptyRange,
        RunErrorKind::PastEnd => RunErrorKindView::PastEnd,
    }
}

impl View for RunError {
    type V = RunErrorView;

    open spec fn view(&self) -> RunErrorView {
        error_view(*self)
    }
}

impl View for RunErrorKind {
    type V = RunErrorKindView;

    open spec fn view(&self) -> RunErrorKindView {
        kind_view(*self)
    }
}

/// The text of a value inside a message: lists nested too deep to follow
/// show as `(...)`.
pub open spec fn shown(h: Seq<Seq<ValueView>>, v: ValueView) -> Seq<char> {
    match text_of(h, v, DEPTH_LIMIT as nat) {
        Some(t) => t,
        None => "(...)"@,
    }
}

/// The message of an error: its place, then the message of its kind.
pub open spec fn error_message(e: RunErrorView, h: Seq<Seq<ValueView>>) -> Seq<char>
    decreases e,
{
    "error (line "@ + decimal_text(e.line as nat) + ", command "@ + e.function + "):\n"@
        + kind_message(e.inner, h)
}

/// The message of an error kind.
pub open spec fn kind_message(k: RunErrorKindView, h: Seq<Seq<ValueView>>) -> Seq<char>
    decreases k,
{
    match k {
        RunErrorKindView::Wrap(e) => error_message(*e, h),
        RunErrorKindView::Return(v) => "value "@ + shown(h, v) + " returned outside function"@,
        RunErrorKindView::ValueError(n) => "expected "@ + decimal_text(n as nat) + (if n == 1 {
            " argument"@
        } else {
            " arguments"@
        }),
        RunErrorKindView::NotImplemented => "command not implemented"@,
        RunErrorKindView::NameError(s) => "variable ["@ + s + "] is undefined"@,
        RunErrorKindView::FuncDefined(s) => "function "@ + s + " is already defined"@,
        RunErrorKindView::IsNotNumber(v) => shown(h, v) + " is not a number"@,
        RunErrorKindView::IsNotList(v) => shown(h, v) + " is not a list"@,
        RunErrorKindView::IOError(s) => "io error: "@ + s,
        RunErrorKindView::ZeroIndex => "vurl is one-indexed, sadly"@,
        RunErrorKindView::IndexError(i, n) => "tried to use index "@ + decimal_text(i as nat)
            + " of a list of "@ + decimal_text(n as nat) + " items"@,
        RunErrorKindView::PopError => "cannot pop from an empty list"@,
        RunErrorKindView::OrdError(s) => "string \""@ + s + "\" must be one character long"@,
        RunErrorKindView::ChrError(n) => decimal_text(n as nat) + " is not a valid unicode codepoint"@,
        RunErrorKindView::UserError(s) => s,
        RunErrorKindView::MustBeTopLevel => "a block command must start its line"@,
        RunErrorKindView::TooDeep => "lists are nested too deep"@,
        RunErrorKindView::EmptyRange => "cannot draw from an empty range"@,
        RunErrorKindView::PastEnd => "function ran past the end of the program"@,
    }
}

/// Appends the text that a value has inside a message.
pub fn push_shown(out: &mut String, heap: &Heap, v: &Value)
    ensures
        final(out)@ == old(out)@ + shown(heap@, v@),
{
    match heap.text(v, DEPTH_LIMIT) {
        Some(t) => push_str(out, t.as_str()),
        None => push_str(out, "(...)"),
    }
}

impl RunError {
    /// Appends the message of the error to `out`.
    pub fn push_message(&self, out: &mut String, heap: &Heap)
        ensures
            final(out)@ == old(out)@ + error_message(self@, heap@),
        decreases self,
    {
        push_str(out, "error (line ");
        push_decimal(out, self.line as u64);
        push_str(out, ", command ");
        push_str(out, self.function.as_str());
        push_str(out, "):\n");
        self.inner.push_message(out, heap);
        assert(out@ =~= old(out)@ + error_message(self@, heap@));
    }

    /// The message of the error.
    pub fn message(&self, heap: &Heap) -> (r: String)
        ensures
            r@ == error_message(self@, heap@),
    {
        let mut out = String::new();
        self.push_message(&mut out, heap);
        assert(out@ =~= error_message(self@, heap@));
        out
    }
}

impl RunErrorKind {
    /// Appends the message of the error kind to `out`.
    pub fn push_message(&self, out: &mut String, heap: &Heap)
        ensures
            final(out)@ == old(out)@ + kind_message(self@, heap@),
        decreases self,
    {
        match self {
            RunErrorKind::Wrap(e) => {
                e.push_message(out, heap);
            },
            RunErrorKind::Return(v) => {
                push_str(out, "value ");
                push_shown(out, heap, v);
                push_str(out, " returned outside function");
            },
            RunErrorKind::ValueError(n) => {
                push_str(out, "expected ");
                push_decimal(out, *n as u64);
                if *n == 1 {
                    push_str(out, " argument");
                } else {
                    push_str(out, " arguments");
                }
            },
            RunErrorKind::NotImplemented => push_str(out, "command not implemented"),
            RunErrorKind::NameError(s) => {
                push_str(out, "variable [");
                push_str(out, s.as_str());
                push_str(out, "] is undefined");
            },
            RunErrorKind::FuncDefined(s) => {
                push_str(out, "function ");
                push_str(out, s.as_str());
                push_str(out, " is already defined");
            },
            RunErrorKind::IsNotNumber(v) => {
                push_shown(out, heap, v);
                push_str(out, " is not a number");
            },
            RunErrorKind::IsNotList(v) => {
                push_shown(out, heap, v);
                push_str(out, " is not a list");
            },
            RunErrorKind::IOError(s) => {
                push_str(out, "io error: ");
                push_str(out, s.as_str());
            },
            RunErrorKind::ZeroIndex => push_str(out, "vurl is one-indexed, sadly"),
            RunErrorKind::IndexError(i, n) => {
                push_str(out, "tried to use index ");
                push_decimal(out, *i as u64);
                push_str(out, " of a list of ");
                push_decimal(out, *n as u64);
                push_str(out, " items");
            },
            RunErrorKind::PopError => push_str(out, "cannot pop from an empty list"),
            RunErrorKind::OrdError(s) => {
                push_str(out, "string \"");
                push_str(out, s.as_str());
                push_str(out, "\" must be one character long");
            },
            RunErrorKind::ChrError(n) => {
                push_decimal(out, *n as u64);
                push_str(out, " is not a valid unicode codepoint");
            },
            RunErrorKind::UserError(s) => push_str(out, s.as_str()),
            RunErrorKind::MustBeTopLevel => push_str(out, "a block command must start its line"),
            RunErrorKind::TooDeep => push_str(out, "lists are nested too deep"),
            RunErrorKind::EmptyRange => push_str(out, "cannot draw from an empty range"),
            RunErrorKind::PastEnd => push_str(out, "function ran past the end of the program"),
        }
        assert(out@ =~= old(out)@ + kind_message(self@, heap@));
    }

    /// The message of the error kind.
    pub fn message(&self, heap: &Heap) -> (r: String)
        ensures
            r@ == kind_message(self@, heap@),
    {
        let mut out = String::new();
        self.push_message(&mut out, heap);
        assert(out@ =~= kind_message(self@, heap@));
        out
    }
}

} // verus!
