//! The builtin commands.
//!
//! A builtin never reaches outside the machine. Where it needs arithmetic
//! on doubles, the console, the clock or a random number, its outcome is a
//! request, and says what is to be done with the reply.

use vstd::prelude::*;
use crate::error::{RunErrorKind, RunErrorKindView};
use crate::number::{floor_clamped, is_zero, num_eq, num_lt, truth, Num, NumView};
use crate::table::{assign, lookup, names_of, Table};
use crate::text::{chars_of, push_str, str_eq, string_of};
use crate::value::{
    copy_of, deep_eq, items_of, joined, nothing, text_of, views, Heap, Value, ValueView, DEPTH_LIMIT,
};

verus! {

/// A function of the program.
#[derive(Clone, PartialEq, Debug)]
pub struct Function {
    /// The first line of the body.
    pub lineno: usize,
    /// The names of the parameters; `None` when the function takes any
    /// number of arguments. Each argument of a call is put among the locals
    /// of the call under the name of its parameter, so the body reads the
    /// parameters whose names bear the dot.
    pub arguments: Option<Vec<String>>,
}

/// The mathematical content of a [`Function`].
pub struct FunctionView {
    pub lineno: usize,
    pub arguments: Option<Seq<Seq<char>>>,
}

/// The contents of a sequence of strings.
pub open spec fn texts(s: Seq<String>) -> Seq<Seq<char>> {
    Seq::new(s.len(), |i: int| s[i]@)
}

impl View for Function {
    type V = FunctionView;

    open spec fn view(&self) -> FunctionView {
        FunctionView {
            lineno: self.lineno,
            arguments: match self.arguments {
                Some(names) => Some(texts(names@)),
                None => None,
            },
        }
    }
}

impl DeepView for Function {
    type V = FunctionView;

    open spec fn deep_view(&self) -> FunctionView {
        self@
    }
}

/// What lives as long as the run: the lists, the global variables and the
/// functions.
#[derive(Debug)]
pub struct Memory {
    pub heap: Heap,
    pub globals: Table<Value>,
    pub functions: Table<Function>,
}

/// The mathematical content of a [`Memory`].
pub struct MemoryView {
    pub heap: Seq<Seq<ValueView>>,
    pub globals: Seq<(Seq<char>, ValueView)>,
    pub functions: Seq<(Seq<char>, FunctionView)>,
}

impl View for Memory {
    type V = MemoryView;

    open spec fn view(&self) -> MemoryView {
        MemoryView { heap: self.heap@, globals: self.globals@, functions: self.functions@ }
    }
}

impl Memory {
    /// A memory without lists, globals and functions.
    pub fn new() -> (m: Memory)
        ensures
            m@ == (MemoryView {
                heap: Seq::empty(),
                globals: Seq::empty(),
                functions: Seq::empty(),
            }),
    {
        Memory { heap: Heap::new(), globals: Table::new(), functions: Table::new() }
    }
}

/// An operation on one double.
#[derive(Clone, Copy, PartialEq, Eq, Structural, Debug)]
pub enum UnaryOp {
    Floor,
    Round,
    Sqrt,
    Sin,
    Cos,
    Tan,
    Asin,
    Acos,
    Atan,
    Ln,
    Exp,
}

/// An operation on two doubles.
#[derive(Clone, Copy, PartialEq, Eq, Structural, Debug)]
pub enum BinaryOp {
    Add,
    Sub,
    Mul,
    Div,
    Rem,
    Pow,
}

/// Where output goes.
#[derive(Clone, Copy, PartialEq, Eq, Structural, Debug)]
pub enum Stream {
    Out,
    Error,
}

/// What the machine asks of its host.
#[derive(PartialEq, Debug)]
pub enum Request {
    /// Read the text as a double.
    Parse(String),
    /// Apply the operation to the double.
    Unary(UnaryOp, Num),
    /// Apply the operation to the two doubles.
    Binary(BinaryOp, Num, Num),
    /// The double nearest to the integer.
    Convert(i128),
    /// The seconds since the Unix epoch.
    Time,
    /// A random double in `0..1`.
    Rand,
    /// Write the text to the stream.
    Write(Stream, String),
    /// Read one line from the console.
    ReadLine,
}

/// The mathematical content of a [`Request`].
pub enum RequestView {
    Parse(Seq<char>),
    Unary(UnaryOp, NumView),
    Binary(BinaryOp, NumView, NumView),
    Convert(i128),
    Time,
    Rand,
    Write(Stream, Seq<char>),
    ReadLine,
}

impl View for Request {
    type V = RequestView;

    open spec fn view(&self) -> RequestView {
        match self {
            Request::Parse(s) => RequestView::Parse(s@),
            Request::Unary(op, a) => RequestView::Unary(*op, a@),
            Request::Binary(op, a, b) => RequestView::Binary(*op, a@, b@),
            Request::Convert(n) => RequestView::Convert(*n),
            Request::Time => RequestView::Time,
            Request::Rand => RequestView::Rand,
            Request::Write(stream, s) => RequestView::Write(*stream, s@),
            Request::ReadLine => RequestView::ReadLine,
        }
    }
}

impl Clone for Request {
    fn clone(&self) -> (r: Self)
        ensures
            r@ == self@,
    {
        match self {
            Request::Parse(s) => Request::Parse(s.clone()),
            Request::Unary(op, a) => Request::Unary(*op, a.clone()),
            Request::Binary(op, a, b) => Request::Binary(*op, a.clone(), b.clone()),
            Request::Convert(n) => Request::Convert(*n),
            Request::Time => Request::Time,
            Request::Rand => Request::Rand,
            Request::Write(stream, s) => Request::Write(*stream, s.clone()),
            Request::ReadLine => Request::ReadLine,
        }
    }
}

/// What becomes of the host's reply.
#[derive(Clone, Copy, PartialEq, Eq, Structural, Debug)]
pub enum Then {
    /// The reply is the result of the command.
    Finish,
    /// The reply takes the place of the argument at this position.
    Coerce(usize),
    /// The reply takes the place of the first two arguments.
    Reduce,
    /// The reply is the next argument.
    Append,
}

/// What a builtin comes to.
#[derive(PartialEq, Debug)]
pub enum Outcome {
    /// The command has this value.
    Value(Value),
    /// The command fails.
    Fail(RunErrorKind),
    /// The running function returns this value.
    Return(Value),
    /// The command has no value, and the run goes on at this line once the
    /// current line is done.
    Jump(usize),
    /// The command stands for this other command.
    Redirect(String, Vec<Value>),
    /// The argument at this position is text that must be read as a number.
    Coerce(usize),
    /// The host is asked, and its reply used as said.
    Ask(Request, Then),
    /// A random integer of this range is wanted, both ends included.
    Draw(i64, i64),
    /// The name is no builtin.
    Unknown,
}

/// The mathematical content of an [`Outcome`].
pub enum OutcomeView {
    Value(ValueView),
    Fail(RunErrorKindView),
    Return(ValueView),
    Jump(usize),
    Redirect(Seq<char>, Seq<ValueView>),
    Coerce(usize),
    Ask(RequestView, Then),
    Draw(i64, i64),
    Unknown,
}

impl View for Outcome {
    type V = OutcomeView;

    open spec fn view(&self) -> OutcomeView {
        match self {
            Outcome::Value(v) => OutcomeView::Value(v@),
            Outcome::Fail(k) => OutcomeView::Fail(k@),
            Outcome::Return(v) => OutcomeView::Return(v@),
            Outcome::Jump(l) => OutcomeView::Jump(*l),
            Outcome::Redirect(name, args) => OutcomeView::Redirect(name@, views(args@)),
            Outcome::Coerce(i) => OutcomeView::Coerce(*i),
            Outcome::Ask(request, then) => OutcomeView::Ask(request@, *then),
            Outcome::Draw(lo, hi) => OutcomeView::Draw(*lo, *hi),
            Outcome::Unknown => OutcomeView::Unknown,
        }
    }
}

/// The line after `line`.
pub open spec fn past(line: usize) -> usize {
    if line < usize::MAX {
        (line + 1) as usize
    } else {
        line
    }
}

/// The line after `line`.
pub fn line_after(line: usize) -> (r: usize)
    ensures
        r == past(line),
{
    if line < usize::MAX {
        line + 1
    } else {
        line
    }
}

/// What reading an argument as a number comes to.
pub enum Reading {
    /// The argument is this number.
    Number(NumView),
    /// The command cannot go on: text has to be read by the host first, and
    /// anything else is no number.
    Stop(OutcomeView),
}

/// Reads the argument at position `i` as a number.
pub open spec fn reading(a: Seq<ValueView>, i: int) -> Reading {
    match a[i] {
        ValueView::Number(n) => Reading::Number(n),
        ValueView::Text(_) => Reading::Stop(OutcomeView::Coerce(i as usize)),
        _ => Reading::Stop(OutcomeView::Fail(RunErrorKindView::IsNotNumber(a[i]))),
    }
}

/// Reads the argument at position `i` as a number.
pub fn read_number(args: &Vec<Value>, i: usize) -> (r: Result<&Num, Outcome>)
    requires
        i < args.len(),
    ensures
        match r {
            Ok(n) => reading(views(args@), i as int) == Reading::Number(n@),
            Err(o) => reading(views(args@), i as int) == Reading::Stop(o@),
        },
{
    match &args[i] {
        Value::Number(n) => Ok(n),
        Value::String(_) => Err(Outcome::Coerce(i)),
        other => Err(Outcome::Fail(RunErrorKind::IsNotNumber(other.clone()))),
    }
}

/// What reading an argument as a position comes to.
pub enum Placing {
    /// The argument names this position, counted from 0.
    At(usize),
    /// The command cannot go on.
    Stop(OutcomeView),
}

/// Reads the argument at position `i` as a position in a list or a text:
/// the floor of the number, counted from 1.
pub open spec fn placing(a: Seq<ValueView>, i: int) -> Placing {
    match reading(a, i) {
        Reading::Stop(o) => Placing::Stop(o),
        Reading::Number(n) => {
            let f = floor_clamped(n.bits, 0, usize::MAX as int);
            if f == 0 {
                Placing::Stop(OutcomeView::Fail(RunErrorKindView::ZeroIndex))
            } else {
                Placing::At((f - 1) as usize)
            }
        },
    }
}

/// Reads the argument at position `i` as a position.
pub fn read_position(args: &Vec<Value>, i: usize) -> (r: Result<usize, Outcome>)
    requires
        i < args.len(),
    ensures
        match r {
            Ok(p) => placing(views(args@), i as int) == Placing::At(p),
            Err(o) => placing(views(args@), i as int) == Placing::Stop(o@),
        },
{
    match read_number(args, i) {
        Err(o) => Err(o),
        Ok(n) => {
            let f = n.floor_usize();
            if f == 0 {
                Err(Outcome::Fail(RunErrorKind::ZeroIndex))
            } else {
                Ok(f - 1)
            }
        },
    }
}

/// The handle of the list that the argument at position `i` is, if it is one.
pub open spec fn listed(h: Seq<Seq<ValueView>>, a: Seq<ValueView>, i: int) -> Option<usize> {
    match a[i] {
        ValueView::List(l) => if l < h.len() {
            Some(l)
        } else {
            None
        },
        _ => None,
    }
}

/// The outcome of a command that got a value of the wrong kind for a list.
pub open spec fn not_a_list(a: Seq<ValueView>, i: int) -> OutcomeView {
    OutcomeView::Fail(RunErrorKindView::IsNotList(a[i]))
}

/// Reads the argument at position `i` as a list.
pub fn read_list(heap: &Heap, args: &Vec<Value>, i: usize) -> (r: Result<usize, Outcome>)
    requires
        i < args.len(),
    ensures
        match r {
            Ok(l) => listed(heap@, views(args@), i as int) == Some(l),
            Err(o) => listed(heap@, views(args@), i as int) is None && o@ == not_a_list(
                views(args@),
                i as int,
            ),
        },
{
    match &args[i] {
        Value::List(l) => {
            if *l < heap.len() {
                Ok(*l)
            } else {
                Err(Outcome::Fail(RunErrorKind::IsNotList(args[i].clone())))
            }
        },
        other => Err(Outcome::Fail(RunErrorKind::IsNotList(other.clone()))),
    }
}

/// The outcome of a command that got the wrong number of arguments.
pub open spec fn wrong_count(n: usize) -> OutcomeView {
    OutcomeView::Fail(RunErrorKindView::ValueError(n))
}

fn miscounted(n: usize) -> (o: Outcome)
    ensures
        o@ == wrong_count(n),
{
    Outcome::Fail(RunErrorKind::ValueError(n))
}

/// The outcome of a command without a value of its own.
pub open spec fn done() -> OutcomeView {
    OutcomeView::Value(nothing())
}

fn finished() -> (o: Outcome)
    ensures
        o@ == done(),
{
    Outcome::Value(Value::default())
}

/// The outcome that is a truth value.
pub open spec fn verdict(b: bool) -> OutcomeView {
    OutcomeView::Value(ValueView::Number(truth(b)))
}

fn decided(b: bool) -> (o: Outcome)
    ensures
        o@ == verdict(b),
{
    Outcome::Value(Value::Number(Num::from_bool(b)))
}

/// The operation on one double that a command name stands for.
pub open spec fn unary_named(name: Seq<char>) -> Option<UnaryOp> {
    if name == "_floor"@ {
        Some(UnaryOp::Floor)
    } else if name == "_round"@ {
        Some(UnaryOp::Round)
    } else if name == "_sqrt"@ {
        Some(UnaryOp::Sqrt)
    } else if name == "_sin"@ {
        Some(UnaryOp::Sin)
    } else if name == "_cos"@ {
        Some(UnaryOp::Cos)
    } else if name == "_tan"@ {
        Some(UnaryOp::Tan)
    } else if name == "_asin"@ {
        Some(UnaryOp::Asin)
    } else if name == "_acos"@ {
        Some(UnaryOp::Acos)
    } else if name == "_atan"@ {
        Some(UnaryOp::Atan)
    } else if name == "_ln"@ {
        Some(UnaryOp::Ln)
    } else if name == "_exp"@ {
        Some(UnaryOp::Exp)
    } else {
        None
    }
}

fn unary_op(name: &str) -> (r: Option<UnaryOp>)
    ensures
        r == unary_named(name@),
{
    if str_eq(name, "_floor") {
        Some(UnaryOp::Floor)
    } else if str_eq(name, "_round") {
        Some(UnaryOp::Round)
    } else if str_eq(name, "_sqrt") {
        Some(UnaryOp::Sqrt)
    } else if str_eq(name, "_sin") {
        Some(UnaryOp::Sin)
    } else if str_eq(name, "_cos") {
        Some(UnaryOp::Cos)
    } else if str_eq(name, "_tan") {
        Some(UnaryOp::Tan)
    } else if str_eq(name, "_asin") {
        Some(UnaryOp::Asin)
    } else if str_eq(name, "_acos") {
        Some(UnaryOp::Acos)
    } else if str_eq(name, "_atan") {
        Some(UnaryOp::Atan)
    } else if str_eq(name, "_ln") {
        Some(UnaryOp::Ln)
    } else if str_eq(name, "_exp") {
        Some(UnaryOp::Exp)
    } else {
        None
    }
}

/// The operation on exactly two doubles that a command name stands for.
pub open spec fn binary_named(name: Seq<char>) -> Option<BinaryOp> {
    if name == "sub"@ {
        Some(BinaryOp::Sub)
    } else if name == "div"@ {
        Some(BinaryOp::Div)
    } else if name == "mod"@ {
        Some(BinaryOp::Rem)
    } else if name == "_pow"@ {
        Some(BinaryOp::Pow)
    } else {
        None
    }
}

fn binary_op(name: &str) -> (r: Option<BinaryOp>)
    ensures
        r == binary_named(name@),
{
    if str_eq(name, "sub") {
        Some(BinaryOp::Sub)
    } else if str_eq(name, "div") {
        Some(BinaryOp::Div)
    } else if str_eq(name, "mod") {
        Some(BinaryOp::Rem)
    } else if str_eq(name, "_pow") {
        Some(BinaryOp::Pow)
    } else {
        None
    }
}

/// The operation that a command name folds over any number of doubles,
/// with the truth value whose number the fold starts from.
pub open spec fn fold_named(name: Seq<char>) -> Option<(BinaryOp, bool)> {
    if name == "add"@ {
        Some((BinaryOp::Add, false))
    } else if name == "mul"@ {
        Some((BinaryOp::Mul, true))
    } else {
        None
    }
}

fn fold_op(name: &str) -> (r: Option<(BinaryOp, bool)>)
    ensures
        r == fold_named(name@),
{
    if str_eq(name, "add") {
        Some((BinaryOp::Add, false))
    } else if str_eq(name, "mul") {
        Some((BinaryOp::Mul, true))
    } else {
        None
    }
}

/// A comparison of two doubles.
#[derive(Clone, Copy, PartialEq, Eq, Structural, Debug)]
pub enum Comparison {
    Lt,
    Gt,
    Lte,
    Gte,
}

/// The comparison that a command name stands for.
pub open spec fn comparison_named(name: Seq<char>) -> Option<Comparison> {
    if name == "lt"@ {
        Some(Comparison::Lt)
    } else if name == "gt"@ {
        Some(Comparison::Gt)
    } else if name == "lte"@ {
        Some(Comparison::Lte)
    } else if name == "gte"@ {
        Some(Comparison::Gte)
    } else {
        None
    }
}

fn comparison(name: &str) -> (r: Option<Comparison>)
    ensures
        r == comparison_named(name@),
{
    if str_eq(name, "lt") {
        Some(Comparison::Lt)
    } else if str_eq(name, "gt") {
        Some(Comparison::Gt)
    } else if str_eq(name, "lte") {
        Some(Comparison::Lte)
    } else if str_eq(name, "gte") {
        Some(Comparison::Gte)
    } else {
        None
    }
}

/// Whether the comparison holds of the two doubles.
pub open spec fn compares(c: Comparison, x: u64, y: u64) -> bool {
    match c {
        Comparison::Lt => num_lt(x, y),
        Comparison::Gt => num_lt(y, x),
        Comparison::Lte => num_lt(x, y) || num_eq(x, y),
        Comparison::Gte => num_lt(y, x) || num_eq(x, y),
    }
}

/// What stops a command that reads its arguments `from..to` as numbers, in
/// order: the first that is no number.
pub open spec fn first_stop(a: Seq<ValueView>, from: int, to: int) -> Option<OutcomeView>
    decreases to - from,
{
    if from >= to {
        None
    } else {
        match reading(a, from) {
            Reading::Stop(o) => Some(o),
            Reading::Number(_) => first_stop(a, from + 1, to),
        }
    }
}

/// Every argument in `from..to` is a number.
pub proof fn lemma_no_stop(a: Seq<ValueView>, from: int, to: int)
    requires
        0 <= from,
        to <= a.len(),
        first_stop(a, from, to) is None,
    ensures
        forall|i: int| from <= i < to ==> a[i] is Number,
    decreases to - from,
{
    if from < to {
        lemma_no_stop(a, from + 1, to);
    }
}

fn scan_numbers(args: &Vec<Value>, to: usize) -> (r: Option<Outcome>)
    requires
        to <= args.len(),
    ensures
        match r {
            Some(o) => first_stop(views(args@), 0, to as int) == Some(o@),
            None => first_stop(views(args@), 0, to as int) is None,
        },
{
    let mut i: usize = 0;
    while i < to
        invariant
            i <= to <= args.len(),
            first_stop(views(args@), 0, to as int) == first_stop(views(args@), i as int, to as int),
        decreases to - i,
    {
        match read_number(args, i) {
            Err(o) => {
                return Some(o);
            },
            Ok(_) => {},
        }
        i += 1;
    }
    None
}

/// `or`: 1 at the first argument that is not zero, 0 when there is none.
pub open spec fn any_set(a: Seq<ValueView>, from: int) -> OutcomeView
    decreases a.len() - from,
{
    if from >= a.len() {
        verdict(false)
    } else {
        match reading(a, from) {
            Reading::Stop(o) => o,
            Reading::Number(n) => if !is_zero(n.bits) {
                verdict(true)
            } else {
                any_set(a, from + 1)
            },
        }
    }
}

/// `and`: 0 at the first argument that is zero, 1 when there is none.
pub open spec fn all_set(a: Seq<ValueView>, from: int) -> OutcomeView
    decreases a.len() - from,
{
    if from >= a.len() {
        verdict(true)
    } else {
        match reading(a, from) {
            Reading::Stop(o) => o,
            Reading::Number(n) => if is_zero(n.bits) {
                verdict(false)
            } else {
                all_set(a, from + 1)
            },
        }
    }
}

/// The arithmetic and logic commands. `None` when the name is none of them.
pub open spec fn arithmetic_outcome(name: Seq<char>, a: Seq<ValueView>) -> Option<OutcomeView> {
    if fold_named(name) is Some {
        let (op, unit) = fold_named(name)->0;
        Some(
            match first_stop(a, 0, a.len() as int) {
                Some(o) => o,
                None => if a.len() == 0 {
                    verdict(unit)
                } else if a.len() == 1 {
                    OutcomeView::Value(a[0])
                } else {
                    OutcomeView::Ask(
                        RequestView::Binary(op, a[0]->Number_0, a[1]->Number_0),
                        Then::Reduce,
                    )
                },
            },
        )
    } else if binary_named(name) is Some {
        Some(
            if a.len() != 2 {
                wrong_count(2)
            } else {
                match first_stop(a, 0, 2) {
                    Some(o) => o,
                    None => OutcomeView::Ask(
                        RequestView::Binary(binary_named(name)->0, a[0]->Number_0, a[1]->Number_0),
                        Then::Finish,
                    ),
                }
            },
        )
    } else if unary_named(name) is Some {
        Some(
            if a.len() != 1 {
                wrong_count(1)
            } else {
                match reading(a, 0) {
                    Reading::Stop(o) => o,
                    Reading::Number(n) => OutcomeView::Ask(
                        RequestView::Unary(unary_named(name)->0, n),
                        Then::Finish,
                    ),
                }
            },
        )
    } else if comparison_named(name) is Some {
        Some(
            if a.len() != 2 {
                wrong_count(2)
            } else {
                match first_stop(a, 0, 2) {
                    Some(o) => o,
                    None => verdict(
                        compares(
                            comparison_named(name)->0,
                            a[0]->Number_0.bits,
                            a[1]->Number_0.bits,
                        ),
                    ),
                }
            },
        )
    } else if name == "not"@ {
        Some(
            if a.len() != 1 {
                wrong_count(1)
            } else {
                match reading(a, 0) {
                    Reading::Stop(o) => o,
                    Reading::Number(n) => verdict(is_zero(n.bits)),
                }
            },
        )
    } else if name == "or"@ {
        Some(any_set(a, 0))
    } else if name == "and"@ {
        Some(all_set(a, 0))
    } else {
        None
    }
}

/// Whether the comparison holds of the two numbers.
pub fn compare(c: Comparison, x: &Num, y: &Num) -> (r: bool)
    ensures
        r == compares(c, x.bits, y.bits),
{
    match c {
        Comparison::Lt => x.less_than(y),
        Comparison::Gt => y.less_than(x),
        Comparison::Lte => x.less_than(y) || x.equals(y),
        Comparison::Gte => y.less_than(x) || x.equals(y),
    }
}

fn any_of(args: &Vec<Value>) -> (o: Outcome)
    ensures
        o@ == any_set(views(args@), 0),
{
    let mut i: usize = 0;
    while i < args.len()
        invariant
            i <= args.len(),
            any_set(views(args@), 0) == any_set(views(args@), i as int),
        decreases args.len() - i,
    {
        match read_number(args, i) {
            Err(o) => {
                return o;
            },
            Ok(n) => {
                if !n.is_zero() {
                    return decided(true);
                }
            },
        }
        i += 1;
    }
    decided(false)
}

fn all_of(args: &Vec<Value>) -> (o: Outcome)
    ensures
        o@ == all_set(views(args@), 0),
{
    let mut i: usize = 0;
    while i < args.len()
        invariant
            i <= args.len(),
            all_set(views(args@), 0) == all_set(views(args@), i as int),
        decreases args.len() - i,
    {
        match read_number(args, i) {
            Err(o) => {
                return o;
            },
            Ok(n) => {
                if n.is_zero() {
                    return decided(false);
                }
            },
        }
        i += 1;
    }
    decided(true)
}

/// The arithmetic and logic commands.
pub fn arithmetic(name: &str, args: &Vec<Value>) -> (r: Option<Outcome>)
    ensures
        match r {
            Some(o) => arithmetic_outcome(name@, views(args@)) == Some(o@),
            None => arithmetic_outcome(name@, views(args@)) is None,
        },
{
    let ghost a = views(args@);
    if let Some((op, unit)) = fold_op(name) {
        if let Some(o) = scan_numbers(args, args.len()) {
            return Some(o);
        }
        proof {
            lemma_no_stop(a, 0, a.len() as int);
        }
        if args.len() == 0 {
            Some(decided(unit))
        } else if args.len() == 1 {
            Some(Outcome::Value(args[0].clone()))
        } else {
            match (read_number(args, 0), read_number(args, 1)) {
                (Ok(x), Ok(y)) => Some(
                    Outcome::Ask(Request::Binary(op, x.clone(), y.clone()), Then::Reduce),
                ),
                _ => None,
            }
        }
    } else if let Some(op) = binary_op(name) {
        if args.len() != 2 {
            return Some(miscounted(2));
        }
        if let Some(o) = scan_numbers(args, 2) {
            return Some(o);
        }
        proof {
            lemma_no_stop(a, 0, 2);
        }
        match (read_number(args, 0), read_number(args, 1)) {
            (Ok(x), Ok(y)) => Some(
                Outcome::Ask(Request::Binary(op, x.clone(), y.clone()), Then::Finish),
            ),
            _ => None,
        }
    } else if let Some(op) = unary_op(name) {
        if args.len() != 1 {
            return Some(miscounted(1));
        }
        match read_number(args, 0) {
            Err(o) => Some(o),
            Ok(n) => Some(Outcome::Ask(Request::Unary(op, n.clone()), Then::Finish)),
        }
    } else if let Some(c) = comparison(name) {
        if args.len() != 2 {
            return Some(miscounted(2));
        }
        if let Some(o) = scan_numbers(args, 2) {
            return Some(o);
        }
        proof {
            lemma_no_stop(a, 0, 2);
        }
        match (read_number(args, 0), read_number(args, 1)) {
            (Ok(x), Ok(y)) => Some(decided(compare(c, x, y))),
            _ => None,
        }
    } else if str_eq(name, "not") {
        if args.len() != 1 {
            return Some(miscounted(1));
        }
        match read_number(args, 0) {
            Err(o) => Some(o),
            Ok(n) => Some(decided(n.is_zero())),
        }
    } else if str_eq(name, "or") {
        Some(any_of(args))
    } else if str_eq(name, "and") {
        Some(all_of(args))
    } else {
        None
    }
}

/// The text of a value as the commands see it.
pub open spec fn said(h: Seq<Seq<ValueView>>, v: ValueView) -> Option<Seq<char>> {
    text_of(h, v, DEPTH_LIMIT as nat)
}

/// The outcome of a command that met lists nested too deep.
pub open spec fn too_deep() -> OutcomeView {
    OutcomeView::Fail(RunErrorKindView::TooDeep)
}

fn overwhelmed() -> (o: Outcome)
    ensures
        o@ == too_deep(),
{
    Outcome::Fail(RunErrorKind::TooDeep)
}

/// The number is a Unicode scalar value: the code point of a character.
pub open spec fn is_scalar(n: u32) -> bool {
    n < 0xD800 || (0xE000 <= n && n <= 0x10FFFF)
}

/// The character with code point `n`.
pub open spec fn scalar(n: u32) -> char {
    n as char
}

/// `char::from_u32`: the character with the given code point, if the number
/// is a Unicode scalar value.
#[verifier::external_body]
fn char_from_u32(n: u32) -> (r: Option<char>)
    ensures
        match r {
            Some(c) => is_scalar(n) && c as u32 == n,
            None => !is_scalar(n),
        },
{
    char::from_u32(n)
}

/// The part of a text from position `start` up to and without `stop`, both
/// counted from 0 and cut to the text.
pub open spec fn slice_of(t: Seq<char>, start: usize, stop: usize) -> Seq<char> {
    let lo = if start < t.len() {
        start as int
    } else {
        t.len() as int
    };
    let hi = if stop <= start {
        lo
    } else if stop < t.len() {
        stop as int
    } else {
        t.len() as int
    };
    t.subrange(lo, hi)
}

/// The text that `print` and its kin write: the texts of the arguments,
/// with `sep` between them, and `end` after the last if there is any.
pub open spec fn written(
    h: Seq<Seq<ValueView>>,
    a: Seq<ValueView>,
    sep: Seq<char>,
    end: Seq<char>,
) -> Option<Seq<char>> {
    match joined(h, a, sep, DEPTH_LIMIT as nat) {
        Some(t) => Some(
            if a.len() == 0 {
                t
            } else {
                t + end
            },
        ),
        None => None,
    }
}

/// The stream, separator and line end of a writing command.
pub open spec fn writer_named(name: Seq<char>) -> Option<(Stream, Seq<char>, Seq<char>)> {
    if name == "print"@ {
        Some((Stream::Out, " "@, "\n"@))
    } else if name == "_printraw"@ {
        Some((Stream::Out, ""@, ""@))
    } else if name == "_printerr"@ {
        Some((Stream::Error, " "@, "\n"@))
    } else if name == "_printerrraw"@ {
        Some((Stream::Error, ""@, ""@))
    } else {
        None
    }
}

/// The commands on texts and on values as such. `None` when the name is
/// none of them.
pub open spec fn wording_outcome(h: Seq<Seq<ValueView>>, name: Seq<char>, a: Seq<ValueView>) -> Option<
    OutcomeView,
> {
    if name == "len"@ {
        Some(
            if a.len() != 1 {
                wrong_count(1)
            } else {
                match a[0] {
                    ValueView::List(l) => OutcomeView::Ask(
                        RequestView::Convert(items_of(h, l).len() as i128),
                        Then::Finish,
                    ),
                    _ => match said(h, a[0]) {
                        Some(t) => OutcomeView::Ask(
                            RequestView::Convert(t.len() as i128),
                            Then::Finish,
                        ),
                        None => too_deep(),
                    },
                }
            },
        )
    } else if name == "eq"@ {
        Some(
            if a.len() != 2 {
                wrong_count(2)
            } else {
                match deep_eq(h, a[0], a[1], DEPTH_LIMIT as nat) {
                    Some(b) => verdict(b),
                    None => too_deep(),
                }
            },
        )
    } else if writer_named(name) is Some {
        let (stream, sep, end) = writer_named(name)->0;
        Some(
            match written(h, a, sep, end) {
                Some(t) => OutcomeView::Ask(RequestView::Write(stream, t), Then::Finish),
                None => too_deep(),
            },
        )
    } else if name == "input"@ {
        Some(
            if a.len() != 0 {
                wrong_count(0)
            } else {
                OutcomeView::Ask(RequestView::ReadLine, Then::Finish)
            },
        )
    } else if name == "substr"@ {
        Some(
            if a.len() != 3 {
                wrong_count(3)
            } else {
                match placing(a, 1) {
                    Placing::Stop(o) => o,
                    Placing::At(start) => match placing(a, 2) {
                        Placing::Stop(o) => o,
                        Placing::At(last) => match said(h, a[0]) {
                            None => too_deep(),
                            Some(t) => OutcomeView::Value(
                                ValueView::Text(slice_of(t, start, past(last))),
                            ),
                        },
                    },
                }
            },
        )
    } else if name == "_chr"@ {
        Some(
            if a.len() != 1 {
                wrong_count(1)
            } else {
                match reading(a, 0) {
                    Reading::Stop(o) => o,
                    Reading::Number(n) => {
                        let code = floor_clamped(n.bits, 0, u32::MAX as int) as u32;
                        if is_scalar(code) {
                            OutcomeView::Value(ValueView::Text(seq![scalar(code)]))
                        } else {
                            OutcomeView::Fail(RunErrorKindView::ChrError(code))
                        }
                    },
                }
            },
        )
    } else if name == "_ord"@ {
        Some(
            if a.len() != 1 {
                wrong_count(1)
            } else {
                match said(h, a[0]) {
                    None => too_deep(),
                    Some(t) => if t.len() != 1 {
                        OutcomeView::Fail(RunErrorKindView::OrdError(t))
                    } else {
                        OutcomeView::Ask(RequestView::Convert(t[0] as u32 as i128), Then::Finish)
                    },
                }
            },
        )
    } else if name == "join"@ {
        Some(
            match joined(h, a, ""@, DEPTH_LIMIT as nat) {
                Some(t) => OutcomeView::Value(ValueView::Text(t)),
                None => too_deep(),
            },
        )
    } else if name == "_islist"@ {
        Some(
            if a.len() != 1 {
                wrong_count(1)
            } else {
                verdict(a[0] is List)
            },
        )
    } else if name == "_error"@ {
        Some(
            if a.len() != 1 {
                wrong_count(1)
            } else {
                match said(h, a[0]) {
                    Some(t) => OutcomeView::Fail(RunErrorKindView::UserError(t)),
                    None => too_deep(),
                }
            },
        )
    } else {
        None
    }
}

fn writer(name: &str) -> (r: Option<(Stream, &'static str, &'static str)>)
    ensures
        match r {
            Some((stream, sep, end)) => writer_named(name@) == Some((stream, sep@, end@)),
            None => writer_named(name@) is None,
        },
{
    if str_eq(name, "print") {
        Some((Stream::Out, " ", "\n"))
    } else if str_eq(name, "_printraw") {
        Some((Stream::Out, "", ""))
    } else if str_eq(name, "_printerr") {
        Some((Stream::Error, " ", "\n"))
    } else if str_eq(name, "_printerrraw") {
        Some((Stream::Error, "", ""))
    } else {
        None
    }
}

/// The part of a text from position `start` up to and without `stop`.
pub fn slice(t: &str, start: usize, stop: usize) -> (r: String)
    ensures
        r@ == slice_of(t@, start, stop),
{
    let chars = chars_of(t);
    let n = chars.len();
    let lo = if start < n {
        start
    } else {
        n
    };
    let hi = if stop <= start {
        lo
    } else if stop < n {
        stop
    } else {
        n
    };
    let mut out = String::new();
    crate::text::push_chars(&mut out, &chars, lo, hi);
    assert(out@ =~= slice_of(t@, start, stop));
    out
}

/// The commands on texts and on values as such.
pub fn wording(heap: &Heap, name: &str, args: &Vec<Value>) -> (r: Option<Outcome>)
    ensures
        match r {
            Some(o) => wording_outcome(heap@, name@, views(args@)) == Some(o@),
            None => wording_outcome(heap@, name@, views(args@)) is None,
        },
{
    if str_eq(name, "len") {
        if args.len() != 1 {
            return Some(miscounted(1));
        }
        match &args[0] {
            Value::List(l) => {
                let n = match heap.get(*l) {
                    Some(items) => items.len(),
                    None => 0,
                };
                Some(Outcome::Ask(Request::Convert(n as i128), Then::Finish))
            },
            other => match heap.text(other, DEPTH_LIMIT) {
                Some(t) => {
                    let n = t.as_str().unicode_len();
                    Some(Outcome::Ask(Request::Convert(n as i128), Then::Finish))
                },
                None => Some(overwhelmed()),
            },
        }
    } else if str_eq(name, "eq") {
        if args.len() != 2 {
            return Some(miscounted(2));
        }
        match heap.equal(&args[0], &args[1], DEPTH_LIMIT) {
            Some(b) => Some(decided(b)),
            None => Some(overwhelmed()),
        }
    } else if let Some((stream, sep, end)) = writer(name) {
        match heap.join(args, sep, DEPTH_LIMIT) {
            Some(t) => {
                let mut t = t;
                if args.len() != 0 {
                    push_str(&mut t, end);
                }
                Some(Outcome::Ask(Request::Write(stream, t), Then::Finish))
            },
            None => Some(overwhelmed()),
        }
    } else if str_eq(name, "input") {
        if args.len() != 0 {
            return Some(miscounted(0));
        }
        Some(Outcome::Ask(Request::ReadLine, Then::Finish))
    } else if str_eq(name, "substr") {
        if args.len() != 3 {
            return Some(miscounted(3));
        }
        let start = match read_position(args, 1) {
            Ok(p) => p,
            Err(o) => {
                return Some(o);
            },
        };
        let last = match read_position(args, 2) {
            Ok(p) => p,
            Err(o) => {
                return Some(o);
            },
        };
        match heap.text(&args[0], DEPTH_LIMIT) {
            None => Some(overwhelmed()),
            Some(t) => Some(Outcome::Value(Value::String(slice(t.as_str(), start, line_after(last))))),
        }
    } else if str_eq(name, "_chr") {
        if args.len() != 1 {
            return Some(miscounted(1));
        }
        match read_number(args, 0) {
            Err(o) => Some(o),
            Ok(n) => {
                let code = n.floor_u32();
                match char_from_u32(code) {
                    Some(c) => {
                        let mut v: Vec<char> = Vec::new();
                        v.push(c);
                        proof {
                            vstd::utf8::char_u32_cast(c, code);
                        }
                        assert(v@ =~= seq![scalar(code)]);
                        Some(Outcome::Value(Value::String(string_of(&v))))
                    },
                    None => Some(Outcome::Fail(RunErrorKind::ChrError(code))),
                }
            },
        }
    } else if str_eq(name, "_ord") {
        if args.len() != 1 {
            return Some(miscounted(1));
        }
        match heap.text(&args[0], DEPTH_LIMIT) {
            None => Some(overwhelmed()),
            Some(t) => {
                let chars = chars_of(t.as_str());
                if chars.len() != 1 {
                    Some(Outcome::Fail(RunErrorKind::OrdError(t)))
                } else {
                    Some(Outcome::Ask(Request::Convert(chars[0] as u32 as i128), Then::Finish))
                }
            },
        }
    } else if str_eq(name, "join") {
        match heap.join(args, "", DEPTH_LIMIT) {
            Some(t) => Some(Outcome::Value(Value::String(t))),
            None => Some(overwhelmed()),
        }
    } else if str_eq(name, "_islist") {
        if args.len() != 1 {
            return Some(miscounted(1));
        }
        let is_list = match &args[0] {
            Value::List(_) => true,
            _ => false,
        };
        Some(decided(is_list))
    } else if str_eq(name, "_error") {
        if args.len() != 1 {
            return Some(miscounted(1));
        }
        match heap.text(&args[0], DEPTH_LIMIT) {
            Some(t) => Some(Outcome::Fail(RunErrorKind::UserError(t))),
            None => Some(overwhelmed()),
        }
    } else {
        None
    }
}

/// The outcome of a command that was given a position outside the list.
pub open spec fn outside(i: usize, len: nat) -> OutcomeView {
    OutcomeView::Fail(RunErrorKindView::IndexError(i, len as usize))
}

/// The commands on lists, with the heap as they leave it. `None` when the
/// name is none of them.
pub open spec fn listing_outcome(h: Seq<Seq<ValueView>>, name: Seq<char>, a: Seq<ValueView>) -> Option<
    (Seq<Seq<ValueView>>, OutcomeView),
> {
    if name == "list"@ {
        Some((h.push(a), OutcomeView::Value(ValueView::List(h.len() as usize))))
    } else if name == "index"@ {
        Some(
            (
                h,
                if a.len() != 2 {
                    wrong_count(2)
                } else {
                    match listed(h, a, 0) {
                        None => not_a_list(a, 0),
                        Some(l) => match placing(a, 1) {
                            Placing::Stop(o) => o,
                            Placing::At(i) => if i < h[l as int].len() {
                                OutcomeView::Value(h[l as int][i as int])
                            } else {
                                outside(i, h[l as int].len())
                            },
                        },
                    }
                },
            ),
        )
    } else if name == "push"@ {
        Some(
            if a.len() != 2 {
                (h, wrong_count(2))
            } else {
                match listed(h, a, 0) {
                    None => (h, not_a_list(a, 0)),
                    Some(l) => (h.update(l as int, h[l as int].push(a[1])), done()),
                }
            },
        )
    } else if name == "pop"@ {
        Some(
            if a.len() != 1 {
                (h, wrong_count(1))
            } else {
                match listed(h, a, 0) {
                    None => (h, not_a_list(a, 0)),
                    Some(l) => if h[l as int].len() == 0 {
                        (h, OutcomeView::Fail(RunErrorKindView::PopError))
                    } else {
                        (
                            h.update(l as int, h[l as int].drop_last()),
                            OutcomeView::Value(h[l as int].last()),
                        )
                    },
                }
            },
        )
    } else if name == "insert"@ {
        Some(
            if a.len() != 3 {
                (h, wrong_count(3))
            } else {
                match listed(h, a, 0) {
                    None => (h, not_a_list(a, 0)),
                    Some(l) => match placing(a, 1) {
                        Placing::Stop(o) => (h, o),
                        Placing::At(i) => {
                            let at = if i < h[l as int].len() {
                                i as int
                            } else {
                                h[l as int].len() as int
                            };
                            (h.update(l as int, h[l as int].insert(at, a[2])), done())
                        },
                    },
                }
            },
        )
    } else if name == "remove"@ {
        Some(
            if a.len() != 2 {
                (h, wrong_count(2))
            } else {
                match listed(h, a, 0) {
                    None => (h, not_a_list(a, 0)),
                    Some(l) => match placing(a, 1) {
                        Placing::Stop(o) => (h, o),
                        Placing::At(i) => if i < h[l as int].len() {
                            (
                                h.update(l as int, h[l as int].remove(i as int)),
                                OutcomeView::Value(h[l as int][i as int]),
                            )
                        } else {
                            (h, outside(i, h[l as int].len()))
                        },
                    },
                }
            },
        )
    } else if name == "replace"@ {
        Some(
            if a.len() != 3 {
                (h, wrong_count(3))
            } else {
                match listed(h, a, 0) {
                    None => (h, not_a_list(a, 0)),
                    Some(l) => match placing(a, 1) {
                        Placing::Stop(o) => (h, o),
                        Placing::At(i) => if i < h[l as int].len() {
                            (h.update(l as int, h[l as int].update(i as int, a[2])), done())
                        } else {
                            (h, outside(i, h[l as int].len()))
                        },
                    },
                }
            },
        )
    } else if name == "_clone"@ {
        Some(
            if a.len() != 1 {
                (h, wrong_count(1))
            } else {
                match copy_of(h, a[0], DEPTH_LIMIT as nat) {
                    (h2, Some(c)) => (h2, OutcomeView::Value(c)),
                    (h2, None) => (h2, too_deep()),
                }
            },
        )
    } else {
        None
    }
}

/// The commands on lists.
pub fn listing(heap: &mut Heap, name: &str, args: &Vec<Value>) -> (r: Option<Outcome>)
    ensures
        match r {
            Some(o) => listing_outcome(old(heap)@, name@, views(args@)) == Some((final(heap)@, o@)),
            None => {
                &&& listing_outcome(old(heap)@, name@, views(args@)) is None
                &&& final(heap)@ == old(heap)@
            },
        },
{
    if str_eq(name, "list") {
        let l = heap.store(crate::value::clone_values(args));
        Some(Outcome::Value(Value::List(l)))
    } else if str_eq(name, "index") {
        if args.len() != 2 {
            return Some(miscounted(2));
        }
        let l = match read_list(heap, args, 0) {
            Ok(l) => l,
            Err(o) => {
                return Some(o);
            },
        };
        let i = match read_position(args, 1) {
            Ok(i) => i,
            Err(o) => {
                return Some(o);
            },
        };
        match heap.get(l) {
            None => None,
            Some(items) => {
                if i < items.len() {
                    Some(Outcome::Value(items[i].clone()))
                } else {
                    Some(Outcome::Fail(RunErrorKind::IndexError(i, items.len())))
                }
            },
        }
    } else if str_eq(name, "push") {
        if args.len() != 2 {
            return Some(miscounted(2));
        }
        let l = match read_list(heap, args, 0) {
            Ok(l) => l,
            Err(o) => {
                return Some(o);
            },
        };
        heap.push(l, args[1].clone());
        Some(finished())
    } else if str_eq(name, "pop") {
        if args.len() != 1 {
            return Some(miscounted(1));
        }
        let l = match read_list(heap, args, 0) {
            Ok(l) => l,
            Err(o) => {
                return Some(o);
            },
        };
        match heap.pop(l) {
            Some(v) => Some(Outcome::Value(v)),
            None => Some(Outcome::Fail(RunErrorKind::PopError)),
        }
    } else if str_eq(name, "insert") {
        if args.len() != 3 {
            return Some(miscounted(3));
        }
        let l = match read_list(heap, args, 0) {
            Ok(l) => l,
            Err(o) => {
                return Some(o);
            },
        };
        let i = match read_position(args, 1) {
            Ok(i) => i,
            Err(o) => {
                return Some(o);
            },
        };
        let len = heap.length(l);
        let at = if i < len {
            i
        } else {
            len
        };
        heap.insert(l, at, args[2].clone());
        Some(finished())
    } else if str_eq(name, "remove") {
        if args.len() != 2 {
            return Some(miscounted(2));
        }
        let l = match read_list(heap, args, 0) {
            Ok(l) => l,
            Err(o) => {
                return Some(o);
            },
        };
        let i = match read_position(args, 1) {
            Ok(i) => i,
            Err(o) => {
                return Some(o);
            },
        };
        let len = heap.length(l);
        if i < len {
            Some(Outcome::Value(heap.remove(l, i)))
        } else {
            Some(Outcome::Fail(RunErrorKind::IndexError(i, len)))
        }
    } else if str_eq(name, "replace") {
        if args.len() != 3 {
            return Some(miscounted(3));
        }
        let l = match read_list(heap, args, 0) {
            Ok(l) => l,
            Err(o) => {
                return Some(o);
            },
        };
        let i = match read_position(args, 1) {
            Ok(i) => i,
            Err(o) => {
                return Some(o);
            },
        };
        let len = heap.length(l);
        if i < len {
            heap.replace(l, i, args[2].clone());
            Some(finished())
        } else {
            Some(Outcome::Fail(RunErrorKind::IndexError(i, len)))
        }
    } else if str_eq(name, "_clone") {
        if args.len() != 1 {
            return Some(miscounted(1));
        }
        match heap.copy(&args[0], DEPTH_LIMIT) {
            Some(c) => Some(Outcome::Value(c)),
            None => Some(overwhelmed()),
        }
    } else {
        None
    }
}

/// The name is that of a local variable: it starts with a dot.
pub open spec fn is_local(name: Seq<char>) -> bool {
    name.len() > 0 && name[0] == '.'
}

/// The name is that of a local variable.
pub fn local_name(name: &str) -> (r: bool)
    ensures
        r == is_local(name@),
{
    let chars = chars_of(name);
    chars.len() > 0 && chars[0] == '.'
}

/// The value that a name stands for. The name chooses the scope by its
/// dot: a name that starts with a dot is looked up among the locals, any
/// other name among the globals, and nowhere else.
pub open spec fn resolve(
    globals: Seq<(Seq<char>, ValueView)>,
    locals: Seq<(Seq<char>, ValueView)>,
    name: Seq<char>,
) -> Option<ValueView> {
    if is_local(name) {
        lookup(locals, name)
    } else {
        lookup(globals, name)
    }
}

/// The value that a name stands for.
pub fn find<'a>(globals: &'a Table<Value>, locals: &'a Table<Value>, name: &str) -> (r: Option<
    &'a Value,
>)
    ensures
        match r {
            Some(v) => resolve(globals@, locals@, name@) == Some(v@),
            None => resolve(globals@, locals@, name@) is None,
        },
{
    if local_name(name) {
        locals.get(name)
    } else {
        globals.get(name)
    }
}

/// The names as text values.
pub open spec fn as_texts(names: Seq<Seq<char>>) -> Seq<ValueView> {
    Seq::new(names.len(), |i: int| ValueView::Text(names[i]))
}

fn names_in(table: &Table<Value>) -> (r: Vec<Value>)
    ensures
        views(r@) == as_texts(names_of(table@)),
{
    let mut out: Vec<Value> = Vec::new();
    let mut i: usize = 0;
    while i < table.len()
        invariant
            i <= table@.len(),
            out@.len() == i,
            forall|j: int| 0 <= j < i ==> out@[j]@ == ValueView::Text(table@[j].0),
        decreases table@.len() - i,
    {
        out.push(Value::String(table.name_at(i).clone()));
        i += 1;
    }
    assert(views(out@) =~= as_texts(names_of(table@)));
    out
}

/// What the commands on variables leave behind.
pub struct Naming {
    pub heap: Seq<Seq<ValueView>>,
    pub globals: Seq<(Seq<char>, ValueView)>,
    pub locals: Seq<(Seq<char>, ValueView)>,
    pub outcome: OutcomeView,
}

/// The commands on variables. `None` when the name is none of them.
pub open spec fn naming_outcome(
    h: Seq<Seq<ValueView>>,
    globals: Seq<(Seq<char>, ValueView)>,
    locals: Seq<(Seq<char>, ValueView)>,
    name: Seq<char>,
    a: Seq<ValueView>,
) -> Option<Naming> {
    let same = |o: OutcomeView| Naming { heap: h, globals, locals, outcome: o };
    if name == "set"@ {
        Some(
            if a.len() != 2 {
                same(wrong_count(2))
            } else {
                match said(h, a[0]) {
                    None => same(too_deep()),
                    Some(n) => if is_local(n) {
                        Naming { heap: h, globals, locals: assign(locals, n, a[1]), outcome: done() }
                    } else {
                        Naming { heap: h, globals: assign(globals, n, a[1]), locals, outcome: done() }
                    },
                }
            },
        )
    } else if name == "_get"@ {
        Some(
            if a.len() != 1 {
                same(wrong_count(1))
            } else {
                match said(h, a[0]) {
                    None => same(too_deep()),
                    Some(n) => match resolve(globals, locals, n) {
                        Some(v) => same(OutcomeView::Value(v)),
                        None => same(OutcomeView::Fail(RunErrorKindView::NameError(n))),
                    },
                }
            },
        )
    } else if name == "_globals"@ {
        Some(
            if a.len() != 0 {
                same(wrong_count(0))
            } else {
                Naming {
                    heap: h.push(as_texts(names_of(globals))),
                    globals,
                    locals,
                    outcome: OutcomeView::Value(ValueView::List(h.len() as usize)),
                }
            },
        )
    } else if name == "_locals"@ {
        Some(
            if a.len() != 0 {
                same(wrong_count(0))
            } else {
                Naming {
                    heap: h.push(as_texts(names_of(locals))),
                    globals,
                    locals,
                    outcome: OutcomeView::Value(ValueView::List(h.len() as usize)),
                }
            },
        )
    } else {
        None
    }
}

/// The commands on variables.
pub fn naming(
    heap: &mut Heap,
    globals: &mut Table<Value>,
    locals: &mut Table<Value>,
    name: &str,
    args: &Vec<Value>,
) -> (r: Option<Outcome>)
    ensures
        match r {
            Some(o) => naming_outcome(old(heap)@, old(globals)@, old(locals)@, name@, views(args@))
                == Some(
                (Naming {
                    heap: final(heap)@,
                    globals: final(globals)@,
                    locals: final(locals)@,
                    outcome: o@,
                }),
            ),
            None => {
                &&& naming_outcome(old(heap)@, old(globals)@, old(locals)@, name@, views(args@))
                    is None
                &&& final(heap)@ == old(heap)@
                &&& final(globals)@ == old(globals)@
                &&& final(locals)@ == old(locals)@
            },
        },
{
    if str_eq(name, "set") {
        if args.len() != 2 {
            return Some(miscounted(2));
        }
        match heap.text(&args[0], DEPTH_LIMIT) {
            None => Some(overwhelmed()),
            Some(n) => {
                if local_name(n.as_str()) {
                    locals.insert(n, args[1].clone());
                } else {
                    globals.insert(n, args[1].clone());
                }
                Some(finished())
            },
        }
    } else if str_eq(name, "_get") {
        if args.len() != 1 {
            return Some(miscounted(1));
        }
        match heap.text(&args[0], DEPTH_LIMIT) {
            None => Some(overwhelmed()),
            Some(n) => match find(globals, locals, n.as_str()) {
                Some(v) => Some(Outcome::Value(v.clone())),
                None => Some(Outcome::Fail(RunErrorKind::NameError(n))),
            },
        }
    } else if str_eq(name, "_globals") {
        if args.len() != 0 {
            return Some(miscounted(0));
        }
        let l = heap.store(names_in(globals));
        Some(Outcome::Value(Value::List(l)))
    } else if str_eq(name, "_locals") {
        if args.len() != 0 {
            return Some(miscounted(0));
        }
        let l = heap.store(names_in(locals));
        Some(Outcome::Value(Value::List(l)))
    } else {
        None
    }
}

/// The name is that of a command that opens or closes a block.
pub open spec fn is_block_word(name: Seq<char>) -> bool {
    name == "end"@ || name == "while"@ || name == "if"@ || name == "define"@ || name == "_cmd"@
        || name == "_func"@
}

/// The commands that call, return, and ask for time and chance; every other
/// name is unknown.
pub open spec fn control_outcome(h: Seq<Seq<ValueView>>, name: Seq<char>, a: Seq<ValueView>) -> OutcomeView {
    if name == "call"@ {
        if a.len() == 0 {
            wrong_count(1)
        } else {
            match said(h, a[0]) {
                None => too_deep(),
                Some(n) => OutcomeView::Redirect("call "@ + n, a.skip(1)),
            }
        }
    } else if name == "_apply"@ {
        if a.len() != 2 {
            wrong_count(2)
        } else {
            match said(h, a[0]) {
                None => too_deep(),
                Some(n) => match listed(h, a, 1) {
                    None => not_a_list(a, 1),
                    Some(l) => OutcomeView::Redirect(n, h[l as int]),
                },
            }
        }
    } else if name == "_return"@ {
        if a.len() == 0 {
            OutcomeView::Return(nothing())
        } else if a.len() == 1 {
            OutcomeView::Return(a[0])
        } else {
            wrong_count(1)
        }
    } else if name == "_time"@ {
        if a.len() != 0 {
            wrong_count(0)
        } else {
            OutcomeView::Ask(RequestView::Time, Then::Finish)
        }
    } else if name == "_rand"@ {
        if a.len() != 0 {
            wrong_count(0)
        } else {
            OutcomeView::Ask(RequestView::Rand, Then::Finish)
        }
    } else if name == "_random"@ {
        if a.len() != 2 {
            wrong_count(2)
        } else {
            match first_stop(a, 0, 2) {
                Some(o) => o,
                None => {
                    let lo = floor_clamped(a[0]->Number_0.bits, i64::MIN as int, i64::MAX as int);
                    let hi = floor_clamped(a[1]->Number_0.bits, i64::MIN as int, i64::MAX as int);
                    if lo > hi {
                        OutcomeView::Fail(RunErrorKindView::EmptyRange)
                    } else {
                        OutcomeView::Draw(lo as i64, hi as i64)
                    }
                },
            }
        }
    } else if is_block_word(name) {
        OutcomeView::Fail(RunErrorKindView::MustBeTopLevel)
    } else {
        OutcomeView::Unknown
    }
}

fn block_word(name: &str) -> (r: bool)
    ensures
        r == is_block_word(name@),
{
    str_eq(name, "end") || str_eq(name, "while") || str_eq(name, "if") || str_eq(name, "define")
        || str_eq(name, "_cmd") || str_eq(name, "_func")
}

/// Copies of the values from position `from` on.
pub fn clone_from(items: &Vec<Value>, from: usize) -> (r: Vec<Value>)
    requires
        from <= items.len(),
    ensures
        views(r@) == views(items@).skip(from as int),
{
    let mut out: Vec<Value> = Vec::new();
    let mut i: usize = from;
    while i < items.len()
        invariant
            from <= i <= items.len(),
            out@.len() == i - from,
            forall|j: int| 0 <= j < i - from ==> out@[j]@ == items@[from + j]@,
        decreases items.len() - i,
    {
        out.push(items[i].clone());
        i += 1;
    }
    assert(views(out@) =~= views(items@).skip(from as int));
    out
}

/// Copies of the values before position `to`.
pub fn clone_to(items: &Vec<Value>, to: usize) -> (r: Vec<Value>)
    requires
        to <= items.len(),
    ensures
        views(r@) == views(items@).take(to as int),
{
    let mut out: Vec<Value> = Vec::new();
    let mut i: usize = 0;
    while i < to
        invariant
            i <= to <= items.len(),
            out@.len() == i,
            forall|j: int| 0 <= j < i ==> out@[j]@ == items@[j]@,
        decreases to - i,
    {
        out.push(items[i].clone());
        i += 1;
    }
    assert(views(out@) =~= views(items@).take(to as int));
    out
}

/// The commands that call, return, and ask for time and chance.
pub fn control(heap: &Heap, name: &str, args: &Vec<Value>) -> (o: Outcome)
    ensures
        o@ == control_outcome(heap@, name@, views(args@)),
{
    if str_eq(name, "call") {
        if args.len() == 0 {
            return miscounted(1);
        }
        match heap.text(&args[0], DEPTH_LIMIT) {
            None => overwhelmed(),
            Some(n) => {
                let mut key = "call ".to_owned();
                push_str(&mut key, n.as_str());
                Outcome::Redirect(key, clone_from(args, 1))
            },
        }
    } else if str_eq(name, "_apply") {
        if args.len() != 2 {
            return miscounted(2);
        }
        match heap.text(&args[0], DEPTH_LIMIT) {
            None => overwhelmed(),
            Some(n) => match read_list(heap, args, 1) {
                Err(o) => o,
                Ok(l) => match heap.get(l) {
                    Some(items) => Outcome::Redirect(n, crate::value::clone_values(items)),
                    None => Outcome::Unknown,
                },
            },
        }
    } else if str_eq(name, "_return") {
        if args.len() == 0 {
            Outcome::Return(Value::default())
        } else if args.len() == 1 {
            Outcome::Return(args[0].clone())
        } else {
            miscounted(1)
        }
    } else if str_eq(name, "_time") {
        if args.len() != 0 {
            miscounted(0)
        } else {
            Outcome::Ask(Request::Time, Then::Finish)
        }
    } else if str_eq(name, "_rand") {
        if args.len() != 0 {
            miscounted(0)
        } else {
            Outcome::Ask(Request::Rand, Then::Finish)
        }
    } else if str_eq(name, "_random") {
        if args.len() != 2 {
            return miscounted(2);
        }
        if let Some(o) = scan_numbers(args, 2) {
            return o;
        }
        proof {
            lemma_no_stop(views(args@), 0, 2);
        }
        match (read_number(args, 0), read_number(args, 1)) {
            (Ok(x), Ok(y)) => {
                let lo = x.floor_i64();
                let hi = y.floor_i64();
                if lo > hi {
                    Outcome::Fail(RunErrorKind::EmptyRange)
                } else {
                    Outcome::Draw(lo, hi)
                }
            },
            _ => Outcome::Unknown,
        }
    } else if block_word(name) {
        Outcome::Fail(RunErrorKind::MustBeTopLevel)
    } else {
        Outcome::Unknown
    }
}

/// The texts of the values, in order; `None` when one of them has none.
pub open spec fn said_all(h: Seq<Seq<ValueView>>, a: Seq<ValueView>) -> Option<Seq<Seq<char>>>
    decreases a.len(),
{
    if a.len() == 0 {
        Some(Seq::empty())
    } else {
        match (said_all(h, a.drop_last()), said(h, a.last())) {
            (Some(ts), Some(t)) => Some(ts.push(t)),
            _ => None,
        }
    }
}

proof fn lemma_said_all_none(h: Seq<Seq<ValueView>>, a: Seq<ValueView>, k: int)
    requires
        0 <= k <= a.len(),
        said_all(h, a.take(k)) is None,
    ensures
        said_all(h, a) is None,
    decreases a.len() - k,
{
    if k < a.len() {
        assert(a.take(k + 1).drop_last() =~= a.take(k));
        lemma_said_all_none(h, a, k + 1);
    } else {
        assert(a.take(k) =~= a);
    }
}

fn texts_of(heap: &Heap, args: &Vec<Value>) -> (r: Option<Vec<String>>)
    ensures
        match r {
            Some(ts) => said_all(heap@, views(args@)) == Some(texts(ts@)) && ts.len()
                == args.len(),
            None => said_all(heap@, views(args@)) is None,
        },
{
    let mut out: Vec<String> = Vec::new();
    let ghost a = views(args@);
    let mut i: usize = 0;
    assert(a.take(0) =~= Seq::<ValueView>::empty());
    assert(texts(out@) =~= Seq::<Seq<char>>::empty());
    while i < args.len()
        invariant
            i <= args.len(),
            a == views(args@),
            out.len() == i,
            said_all(heap@, a.take(i as int)) == Some(texts(out@)),
        decreases args.len() - i,
    {
        proof {
            assert(a.take(i + 1).drop_last() =~= a.take(i as int));
            assert(a.take(i + 1).last() == args@[i as int]@);
        }
        let ghost before = texts(out@);
        match heap.text(&args[i], DEPTH_LIMIT) {
            None => {
                proof {
                    lemma_said_all_none(heap@, a, i + 1);
                }
                return None;
            },
            Some(t) => {
                out.push(t);
                assert(texts(out@) =~= before.push(t@));
            },
        }
        i += 1;
    }
    assert(a.take(args.len() as int) =~= a);
    Some(out)
}

/// The name closes the body of a function.
pub open spec fn is_closer(name: Seq<char>) -> bool {
    name == "end _cmd"@ || name == "end _func"@ || name == "end define"@
}

/// The name opens the body of a function with parameters.
pub open spec fn is_header(name: Seq<char>) -> bool {
    name == "_cmd"@ || name == "_func"@
}

/// The outcome of a command that defines what is defined already.
pub open spec fn taken(name: Seq<char>) -> OutcomeView {
    OutcomeView::Fail(RunErrorKindView::FuncDefined(name))
}

/// The block commands: a command whose last argument is the line that the
/// block pass gave it. `rest` holds the arguments before that line, `target`
/// the line, `lineno` the line that is running. Gives the function table as
/// the command leaves it, and the outcome.
pub open spec fn block_outcome(
    functions: Seq<(Seq<char>, FunctionView)>,
    h: Seq<Seq<ValueView>>,
    lineno: usize,
    name: Seq<char>,
    rest: Seq<ValueView>,
    target: usize,
) -> (Seq<(Seq<char>, FunctionView)>, OutcomeView) {
    if is_closer(name) {
        (
            functions,
            if rest.len() == 0 {
                OutcomeView::Return(nothing())
            } else if rest.len() == 1 {
                OutcomeView::Return(rest[0])
            } else {
                wrong_count(1)
            },
        )
    } else if name == "end while"@ {
        (
            functions,
            if rest.len() == 0 {
                OutcomeView::Jump(target)
            } else {
                wrong_count(0)
            },
        )
    } else if name == "end if"@ {
        (
            functions,
            if rest.len() == 0 {
                done()
            } else {
                wrong_count(0)
            },
        )
    } else if name == "if"@ || name == "while"@ {
        (
            functions,
            if rest.len() != 1 {
                wrong_count(1)
            } else {
                match reading(rest, 0) {
                    Reading::Stop(o) => o,
                    Reading::Number(n) => if is_zero(n.bits) {
                        OutcomeView::Jump(past(target))
                    } else {
                        done()
                    },
                }
            },
        )
    } else if is_header(name) {
        if rest.len() == 0 {
            (functions, wrong_count(1))
        } else {
            match said_all(h, rest) {
                None => (functions, too_deep()),
                Some(ts) => if lookup(functions, ts[0]) is Some {
                    (functions, taken(ts[0]))
                } else {
                    (
                        assign(
                            functions,
                            ts[0],
                            FunctionView {
                                lineno: past(lineno),
                                arguments: if ts.len() == 1 || ts[1] == "..."@ {
                                    None
                                } else {
                                    Some(ts.skip(1))
                                },
                            },
                        ),
                        OutcomeView::Jump(past(target)),
                    )
                },
            }
        }
    } else if name == "define"@ {
        if rest.len() != 1 {
            (functions, wrong_count(1))
        } else {
            match said(h, rest[0]) {
                None => (functions, too_deep()),
                Some(t) => if lookup(functions, "call "@ + t) is Some {
                    (functions, taken(t))
                } else {
                    (
                        assign(
                            functions,
                            "call "@ + t,
                            FunctionView { lineno: past(lineno), arguments: None },
                        ),
                        OutcomeView::Jump(past(target)),
                    )
                },
            }
        }
    } else {
        (functions, OutcomeView::Redirect(name, rest))
    }
}

fn rest_of(names: Vec<String>) -> (r: Vec<String>)
    requires
        names.len() >= 1,
    ensures
        texts(r@) == texts(names@).skip(1),
{
    let mut names = names;
    let ghost before = names@;
    names.remove(0);
    assert(texts(names@) =~= texts(before).skip(1));
    names
}

/// The block commands.
pub fn blocks(
    functions: &mut Table<Function>,
    heap: &Heap,
    lineno: usize,
    name: &str,
    rest: Vec<Value>,
    target: usize,
) -> (o: Outcome)
    ensures
        block_outcome(old(functions)@, heap@, lineno, name@, views(rest@), target) == (
            final(functions)@,
            o@,
        ),
{
    if str_eq(name, "end _cmd") || str_eq(name, "end _func") || str_eq(name, "end define") {
        if rest.len() == 0 {
            Outcome::Return(Value::default())
        } else if rest.len() == 1 {
            Outcome::Return(rest[0].clone())
        } else {
            miscounted(1)
        }
    } else if str_eq(name, "end while") {
        if rest.len() == 0 {
            Outcome::Jump(target)
        } else {
            miscounted(0)
        }
    } else if str_eq(name, "end if") {
        if rest.len() == 0 {
            finished()
        } else {
            miscounted(0)
        }
    } else if str_eq(name, "if") || str_eq(name, "while") {
        if rest.len() != 1 {
            return miscounted(1);
        }
        match read_number(&rest, 0) {
            Err(o) => o,
            Ok(n) => {
                if n.is_zero() {
                    Outcome::Jump(line_after(target))
                } else {
                    finished()
                }
            },
        }
    } else if str_eq(name, "_cmd") || str_eq(name, "_func") {
        if rest.len() == 0 {
            return miscounted(1);
        }
        match texts_of(heap, &rest) {
            None => overwhelmed(),
            Some(ts) => {
                if functions.get(ts[0].as_str()).is_some() {
                    Outcome::Fail(RunErrorKind::FuncDefined(ts[0].clone()))
                } else {
                    let name = ts[0].clone();
                    let arguments = if ts.len() == 1 || str_eq(ts[1].as_str(), "...") {
                        None
                    } else {
                        Some(rest_of(ts))
                    };
                    functions.insert(name, Function { lineno: line_after(lineno), arguments });
                    Outcome::Jump(line_after(target))
                }
            },
        }
    } else if str_eq(name, "define") {
        if rest.len() != 1 {
            return miscounted(1);
        }
        match heap.text(&rest[0], DEPTH_LIMIT) {
            None => overwhelmed(),
            Some(t) => {
                let mut key = "call ".to_owned();
                push_str(&mut key, t.as_str());
                if functions.get(key.as_str()).is_some() {
                    Outcome::Fail(RunErrorKind::FuncDefined(t))
                } else {
                    functions.insert(key, Function { lineno: line_after(lineno), arguments: None });
                    Outcome::Jump(line_after(target))
                }
            },
        }
    } else {
        Outcome::Redirect(name.to_owned(), rest)
    }
}

/// What a builtin leaves behind.
pub struct Effect {
    pub memory: MemoryView,
    pub locals: Seq<(Seq<char>, ValueView)>,
    pub outcome: OutcomeView,
}

/// What the command `name` does on the arguments `a`, while line `lineno`
/// is running. A command whose last argument is a line is a block command.
/// Any other is looked for among the arithmetic commands, the commands on
/// texts, on lists and on variables, and the commands of control, in this
/// order; a name that none of them knows is unknown.
pub open spec fn builtin_effect(
    m: MemoryView,
    locals: Seq<(Seq<char>, ValueView)>,
    lineno: usize,
    name: Seq<char>,
    a: Seq<ValueView>,
) -> Effect {
    if a.len() > 0 && a.last() is Lineptr {
        let (functions, outcome) = block_outcome(
            m.functions,
            m.heap,
            lineno,
            name,
            a.drop_last(),
            a.last()->Lineptr_0,
        );
        Effect {
            memory: MemoryView { heap: m.heap, globals: m.globals, functions },
            locals,
            outcome,
        }
    } else {
        match arithmetic_outcome(name, a) {
            Some(o) => Effect { memory: m, locals, outcome: o },
            None => match wording_outcome(m.heap, name, a) {
                Some(o) => Effect { memory: m, locals, outcome: o },
                None => match listing_outcome(m.heap, name, a) {
                    Some((h, o)) => Effect {
                        memory: MemoryView { heap: h, globals: m.globals, functions: m.functions },
                        locals,
                        outcome: o,
                    },
                    None => match naming_outcome(m.heap, m.globals, locals, name, a) {
                        Some(n) => Effect {
                            memory: MemoryView {
                                heap: n.heap,
                                globals: n.globals,
                                functions: m.functions,
                            },
                            locals: n.locals,
                            outcome: n.outcome,
                        },
                        None => Effect {
                            memory: m,
                            locals,
                            outcome: control_outcome(m.heap, name, a),
                        },
                    },
                },
            },
        }
    }
}

/// Runs the builtin `name` on `args`, while line `lineno` is running.
pub fn builtins(
    memory: &mut Memory,
    locals: &mut Table<Value>,
    lineno: usize,
    name: &str,
    args: &Vec<Value>,
) -> (o: Outcome)
    ensures
        builtin_effect(old(memory)@, old(locals)@, lineno, name@, views(args@)) == (Effect {
            memory: final(memory)@,
            locals: final(locals)@,
            outcome: o@,
        }),
{
    let n = args.len();
    if n > 0 {
        if let Value::Lineptr(target) = &args[n - 1] {
            let rest = clone_to(args, n - 1);
            assert(views(args@).drop_last() =~= views(args@).take(n - 1));
            return blocks(&mut memory.functions, &memory.heap, lineno, name, rest, *target);
        }
    }
    if let Some(o) = arithmetic(name, args) {
        return o;
    }
    if let Some(o) = wording(&memory.heap, name, args) {
        return o;
    }
    if let Some(o) = listing(&mut memory.heap, name, args) {
        return o;
    }
    if let Some(o) = naming(&mut memory.heap, &mut memory.globals, locals, name, args) {
        return o;
    }
    control(&memory.heap, name, args)
}

/// What `index` gives for the list under `l` and the number `n`: the first
/// item for a number whose floor is 1, and so on; an error for a floor of 0,
/// and for a floor beyond the last item.
pub open spec fn indexed(h: Seq<Seq<ValueView>>, l: usize, n: NumView) -> OutcomeView {
    let f = floor_clamped(n.bits, 0, usize::MAX as int);
    if f == 0 {
        OutcomeView::Fail(RunErrorKindView::ZeroIndex)
    } else if f <= h[l as int].len() {
        OutcomeView::Value(h[l as int][f - 1])
    } else {
        OutcomeView::Fail(RunErrorKindView::IndexError((f - 1) as usize, h[l as int].len() as usize))
    }
}

/// Positions count from 1: on a list and a number, `index` comes to what
/// `indexed` says, and leaves the heap as it was.
pub proof fn lemma_index_counts_from_one(h: Seq<Seq<ValueView>>, l: usize, n: NumView)
    requires
        l < h.len(),
    ensures
        listing_outcome(h, "index"@, seq![ValueView::List(l), ValueView::Number(n)]) == Some(
            (h, indexed(h, l, n)),
        ),
{
    reveal_strlit("list");
    reveal_strlit("index");
    assert("index"@ != "list"@) by {
        assert("index"@.len() == 5);
        assert("list"@.len() == 4);
    }
    let a = seq![ValueView::List(l), ValueView::Number(n)];
    assert(listed(h, a, 0) == Some(l));
    assert(reading(a, 1) == Reading::Number(n));
}

/// `set` goes by the dot. A name that starts with a dot is written among
/// the locals and leaves every global as it was, the global of the same name
/// without the dot too; any other name is written among the globals and
/// leaves the locals as they were.
pub proof fn lemma_set_goes_by_the_dot(
    h: Seq<Seq<ValueView>>,
    globals: Seq<(Seq<char>, ValueView)>,
    locals: Seq<(Seq<char>, ValueView)>,
    name: Seq<char>,
    v: ValueView,
)
    ensures
        naming_outcome(h, globals, locals, "set"@, seq![ValueView::Text(name), v]) == Some(
            if is_local(name) {
                Naming { heap: h, globals, locals: assign(locals, name, v), outcome: done() }
            } else {
                Naming { heap: h, globals: assign(globals, name, v), locals, outcome: done() }
            },
        ),
{
}

/// What `set` writes, a reference reads: after `set` has put a value under
/// a name, the name stands for that value, whether it bears the dot or not.
pub proof fn lemma_set_then_read(
    h: Seq<Seq<ValueView>>,
    globals: Seq<(Seq<char>, ValueView)>,
    locals: Seq<(Seq<char>, ValueView)>,
    name: Seq<char>,
    v: ValueView,
)
    ensures
        naming_outcome(h, globals, locals, "set"@, seq![ValueView::Text(name), v]) matches Some(
            after,
        ) && resolve(after.globals, after.locals, name) == Some(v),
{
    lemma_set_goes_by_the_dot(h, globals, locals, name, v);
    crate::table::lemma_lookup_assigned(locals, name, v);
    crate::table::lemma_lookup_assigned(globals, name, v);
}

/// Conditions steer by zero. `if` and `while` on a number that is zero send
/// the run past the `end` of their block, and on any other number let it go
/// on with the next line. The `end` of a `while` sends the run back to the
/// `while`; the `end` of an `if` does nothing.
pub proof fn lemma_conditions_steer(
    functions: Seq<(Seq<char>, FunctionView)>,
    h: Seq<Seq<ValueView>>,
    lineno: usize,
    n: NumView,
    target: usize,
)
    ensures
        block_outcome(functions, h, lineno, "if"@, seq![ValueView::Number(n)], target) == (
            functions,
            if is_zero(n.bits) {
                OutcomeView::Jump(past(target))
            } else {
                done()
            },
        ),
        block_outcome(functions, h, lineno, "while"@, seq![ValueView::Number(n)], target) == (
            functions,
            if is_zero(n.bits) {
                OutcomeView::Jump(past(target))
            } else {
                done()
            },
        ),
        block_outcome(functions, h, lineno, "end while"@, Seq::empty(), target) == (
            functions,
            OutcomeView::Jump(target),
        ),
        block_outcome(functions, h, lineno, "end if"@, Seq::empty(), target) == (functions, done()),
{
    reveal_strlit("if");
    reveal_strlit("while");
    reveal_strlit("end while");
    reveal_strlit("end if");
    reveal_strlit("end _cmd");
    reveal_strlit("end _func");
    reveal_strlit("end define");
    assert("if"@.len() == 2);
    assert("while"@.len() == 5);
    assert("end while"@.len() == 9);
    assert("end if"@.len() == 6);
    assert("end _cmd"@.len() == 8);
    assert("end _func"@.len() == 9);
    assert("end define"@.len() == 10);
    assert("end while"@ != "end _func"@) by {
        assert("end while"@[4] == 'w');
        assert("end _func"@[4] == '_');
    }
    assert(!is_closer("if"@) && !is_closer("while"@) && !is_closer("end while"@) && !is_closer(
        "end if"@,
    ));
    let one = seq![ValueView::Number(n)];
    assert(reading(one, 0) == Reading::Number(n));
}

/// A mark by which the names of the builtins are told apart: the length of
/// a name and some of its characters.
pub open spec fn mark(name: Seq<char>) -> (nat, char, char, char, char) {
    (
        name.len(),
        name[0],
        name[1],
        if name.len() > 2 {
            name[2]
        } else {
            ' '
        },
        name.last(),
    )
}

/// How many arguments a command takes, for the commands that take a fixed
/// number of them.
pub open spec fn arity(name: Seq<char>) -> Option<usize> {
    if name == "sub"@ || name == "div"@ || name == "mod"@ || name == "_pow"@ || name == "lt"@ || name == "gt"@ || name == "lte"@ || name == "gte"@ || name == "eq"@ || name == "index"@ || name == "push"@ || name == "remove"@ || name == "set"@ || name == "_apply"@ || name == "_random"@ {
        Some(2)
    } else if name == "_floor"@ || name == "_round"@ || name == "_sqrt"@ || name == "_sin"@ || name == "_cos"@ || name == "_tan"@ || name == "_asin"@ || name == "_acos"@ || name == "_atan"@ || name == "_ln"@ || name == "_exp"@ || name == "not"@ || name == "len"@ || name == "_chr"@ || name == "_ord"@ || name == "_islist"@ || name == "_clone"@ || name == "pop"@ || name == "_get"@ || name == "_error"@ {
        Some(1)
    } else if name == "substr"@ || name == "insert"@ || name == "replace"@ {
        Some(3)
    } else if name == "input"@ || name == "_globals"@ || name == "_locals"@ || name == "_time"@ || name == "_rand"@ {
        Some(0)
    } else {
        None
    }
}

proof fn lemma_marks()
    ensures
        mark("sub"@) == (3nat, 's', 'u', 'b', 'b'),
        mark("div"@) == (3nat, 'd', 'i', 'v', 'v'),
        mark("mod"@) == (3nat, 'm', 'o', 'd', 'd'),
        mark("_pow"@) == (4nat, '_', 'p', 'o', 'w'),
        mark("lt"@) == (2nat, 'l', 't', ' ', 't'),
        mark("gt"@) == (2nat, 'g', 't', ' ', 't'),
        mark("lte"@) == (3nat, 'l', 't', 'e', 'e'),
        mark("gte"@) == (3nat, 'g', 't', 'e', 'e'),
        mark("eq"@) == (2nat, 'e', 'q', ' ', 'q'),
        mark("index"@) == (5nat, 'i', 'n', 'd', 'x'),
        mark("push"@) == (4nat, 'p', 'u', 's', 'h'),
        mark("remove"@) == (6nat, 'r', 'e', 'm', 'e'),
        mark("set"@) == (3nat, 's', 'e', 't', 't'),
        mark("_apply"@) == (6nat, '_', 'a', 'p', 'y'),
        mark("_random"@) == (7nat, '_', 'r', 'a', 'm'),
        mark("_floor"@) == (6nat, '_', 'f', 'l', 'r'),
        mark("_round"@) == (6nat, '_', 'r', 'o', 'd'),
        mark("_sqrt"@) == (5nat, '_', 's', 'q', 't'),
        mark("_sin"@) == (4nat, '_', 's', 'i', 'n'),
        mark("_cos"@) == (4nat, '_', 'c', 'o', 's'),
        mark("_tan"@) == (4nat, '_', 't', 'a', 'n'),
        mark("_asin"@) == (5nat, '_', 'a', 's', 'n'),
        mark("_acos"@) == (5nat, '_', 'a', 'c', 's'),
        mark("_atan"@) == (5nat, '_', 'a', 't', 'n'),
        mark("_ln"@) == (3nat, '_', 'l', 'n', 'n'),
        mark("_exp"@) == (4nat, '_', 'e', 'x', 'p'),
        mark("not"@) == (3nat, 'n', 'o', 't', 't'),
        mark("len"@) == (3nat, 'l', 'e', 'n', 'n'),
        mark("_chr"@) == (4nat, '_', 'c', 'h', 'r'),
        mark("_ord"@) == (4nat, '_', 'o', 'r', 'd'),
        mark("_islist"@) == (7nat, '_', 'i', 's', 't'),
        mark("_clone"@) == (6nat, '_', 'c', 'l', 'e'),
        mark("pop"@) == (3nat, 'p', 'o', 'p', 'p'),
        mark("_get"@) == (4nat, '_', 'g', 'e', 't'),
        mark("_error"@) == (6nat, '_', 'e', 'r', 'r'),
        mark("substr"@) == (6nat, 's', 'u', 'b', 'r'),
        mark("insert"@) == (6nat, 'i', 'n', 's', 't'),
        mark("replace"@) == (7nat, 'r', 'e', 'p', 'e'),
        mark("input"@) == (5nat, 'i', 'n', 'p', 't'),
        mark("_globals"@) == (8nat, '_', 'g', 'l', 's'),
        mark("_locals"@) == (7nat, '_', 'l', 'o', 's'),
        mark("_time"@) == (5nat, '_', 't', 'i', 'e'),
        mark("_rand"@) == (5nat, '_', 'r', 'a', 'd'),
        mark("add"@) == (3nat, 'a', 'd', 'd', 'd'),
        mark("mul"@) == (3nat, 'm', 'u', 'l', 'l'),
        mark("or"@) == (2nat, 'o', 'r', ' ', 'r'),
        mark("and"@) == (3nat, 'a', 'n', 'd', 'd'),
        mark("print"@) == (5nat, 'p', 'r', 'i', 't'),
        mark("_printraw"@) == (9nat, '_', 'p', 'r', 'w'),
        mark("_printerr"@) == (9nat, '_', 'p', 'r', 'r'),
        mark("_printerrraw"@) == (12nat, '_', 'p', 'r', 'w'),
        mark("join"@) == (4nat, 'j', 'o', 'i', 'n'),
        mark("list"@) == (4nat, 'l', 'i', 's', 't'),
        mark("call"@) == (4nat, 'c', 'a', 'l', 'l'),
        mark("_return"@) == (7nat, '_', 'r', 'e', 'n'),
        mark("end"@) == (3nat, 'e', 'n', 'd', 'd'),
        mark("while"@) == (5nat, 'w', 'h', 'i', 'e'),
        mark("if"@) == (2nat, 'i', 'f', ' ', 'f'),
        mark("define"@) == (6nat, 'd', 'e', 'f', 'e'),
        mark("_cmd"@) == (4nat, '_', 'c', 'm', 'd'),
        mark("_func"@) == (5nat, '_', 'f', 'u', 'c'),
{
    reveal_strlit("sub");
    reveal_strlit("div");
    reveal_strlit("mod");
    reveal_strlit("_pow");
    reveal_strlit("lt");
    reveal_strlit("gt");
    reveal_strlit("lte");
    reveal_strlit("gte");
    reveal_strlit("eq");
    reveal_strlit("index");
    reveal_strlit("push");
    reveal_strlit("remove");
    reveal_strlit("set");
    reveal_strlit("_apply");
    reveal_strlit("_random");
    reveal_strlit("_floor");
    reveal_strlit("_round");
    reveal_strlit("_sqrt");
    reveal_strlit("_sin");
    reveal_strlit("_cos");
    reveal_strlit("_tan");
    reveal_strlit("_asin");
    reveal_strlit("_acos");
    reveal_strlit("_atan");
    reveal_strlit("_ln");
    reveal_strlit("_exp");
    reveal_strlit("not");
    reveal_strlit("len");
    reveal_strlit("_chr");
    reveal_strlit("_ord");
    reveal_strlit("_islist");
    reveal_strlit("_clone");
    reveal_strlit("pop");
    reveal_strlit("_get");
    reveal_strlit("_error");
    reveal_strlit("substr");
    reveal_strlit("insert");
    reveal_strlit("replace");
    reveal_strlit("input");
    reveal_strlit("_globals");
    reveal_strlit("_locals");
    reveal_strlit("_time");
    reveal_strlit("_rand");
    reveal_strlit("add");
    reveal_strlit("mul");
    reveal_strlit("or");
    reveal_strlit("and");
    reveal_strlit("print");
    reveal_strlit("_printraw");
    reveal_strlit("_printerr");
    reveal_strlit("_printerrraw");
    reveal_strlit("join");
    reveal_strlit("list");
    reveal_strlit("call");
    reveal_strlit("_return");
    reveal_strlit("end");
    reveal_strlit("while");
    reveal_strlit("if");
    reveal_strlit("define");
    reveal_strlit("_cmd");
    reveal_strlit("_func");
}

/// A command that takes a fixed number of arguments fails when it is given
/// another number of them: the error names the number that it takes, and
/// nothing else changes.
pub proof fn lemma_fixed_arity(
    m: MemoryView,
    locals: Seq<(Seq<char>, ValueView)>,
    lineno: usize,
    name: Seq<char>,
    a: Seq<ValueView>,
)
    requires
        arity(name) is Some,
        a.len() != arity(name)->0,
        !(a.len() > 0 && a.last() is Lineptr),
    ensures
        builtin_effect(m, locals, lineno, name, a) == (Effect {
            memory: m,
            locals,
            outcome: wrong_count(arity(name)->0),
        }),
{
    lemma_marks();
}

/// A list is shared by all who hold its handle. `push` through any value
/// that holds the handle `l` puts the item at the end of the one list under
/// `l`, where every holder of `l` finds it; all other lists stay as they
/// were.
pub proof fn lemma_push_is_seen_by_every_holder(h: Seq<Seq<ValueView>>, l: usize, v: ValueView)
    requires
        l < h.len(),
    ensures
        listing_outcome(h, "push"@, seq![ValueView::List(l), v]) matches Some((h2, o)) && o
            == done() && h2.len() == h.len() && items_of(h2, l) == items_of(h, l).push(v)
            && forall|m: usize| m != l ==> items_of(h2, m) == items_of(h, m),
{
    lemma_marks();
    let name = "push"@;
    let a = seq![ValueView::List(l), v];
    assert(listed(h, a, 0) == Some(l));
    let h2 = h.update(l as int, h[l as int].push(a[1]));
    assert(listing_outcome(h, name, a) == Some((h2, done())));
    assert forall|m: usize| m != l implies items_of(h2, m) == items_of(h, m) by {}
}

/// `push` as a builtin: on a list of the heap and a value that is no line,
/// the command puts the value at the end of the list under the handle and
/// changes nothing else. (A line as the last argument makes any command a
/// block command.)
pub proof fn lemma_push_appends(
    m: MemoryView,
    locals: Seq<(Seq<char>, ValueView)>,
    lineno: usize,
    l: usize,
    v: ValueView,
)
    requires
        l < m.heap.len(),
        !(v is Lineptr),
    ensures
        builtin_effect(m, locals, lineno, "push"@, seq![ValueView::List(l), v]) == (Effect {
            memory: MemoryView {
                heap: m.heap.update(l as int, m.heap[l as int].push(v)),
                globals: m.globals,
                functions: m.functions,
            },
            locals,
            outcome: done(),
        }),
{
    lemma_marks();
    lemma_push_is_seen_by_every_holder(m.heap, l, v);
    let a = seq![ValueView::List(l), v];
    assert(a.last() == v);
    assert(listed(m.heap, a, 0) == Some(l));
}

/// The value that `set` writes among the globals, if the command is a `set`
/// of a name without the dot: the name and the value.
pub open spec fn global_write(h: Seq<Seq<ValueView>>, name: Seq<char>, a: Seq<ValueView>) -> Option<
    (Seq<char>, ValueView),
> {
    if name == "set"@ && a.len() == 2 && !(a.last() is Lineptr) {
        match said(h, a[0]) {
            Some(n) => if is_local(n) {
                None
            } else {
                Some((n, a[1]))
            },
            None => None,
        }
    } else {
        None
    }
}

/// The value that `set` writes among the locals, if the command is a `set`
/// of a name with the dot: the name and the value.
pub open spec fn local_write(h: Seq<Seq<ValueView>>, name: Seq<char>, a: Seq<ValueView>) -> Option<
    (Seq<char>, ValueView),
> {
    if name == "set"@ && a.len() == 2 && !(a.last() is Lineptr) {
        match said(h, a[0]) {
            Some(n) => if is_local(n) {
                Some((n, a[1]))
            } else {
                None
            },
            None => None,
        }
    } else {
        None
    }
}

/// Only `set` writes variables. A builtin leaves the globals as they were,
/// unless it is a `set` of a name without the dot, which puts its value
/// under that name; and it leaves the locals as they were, unless it is a
/// `set` of a name with the dot.
pub proof fn lemma_only_set_writes(
    m: MemoryView,
    locals: Seq<(Seq<char>, ValueView)>,
    lineno: usize,
    name: Seq<char>,
    a: Seq<ValueView>,
)
    ensures
        builtin_effect(m, locals, lineno, name, a).memory.globals == (match global_write(
            m.heap,
            name,
            a,
        ) {
            Some((n, v)) => assign(m.globals, n, v),
            None => m.globals,
        }),
        builtin_effect(m, locals, lineno, name, a).locals == (match local_write(m.heap, name, a) {
            Some((n, v)) => assign(locals, n, v),
            None => locals,
        }),
{
    lemma_marks();
}

} // verus!
