//! The parser: one command per line, and the pass that ties every block
//! opener to its `end`.

use vstd::prelude::*;
use crate::text::{chars_of, decimal_text, push_chars, push_decimal, push_str, str_eq, string_of};

verus! {

/// An expression of one source line.
#[derive(PartialEq, Debug)]
pub enum Expr {
    /// A parenthesised sub-command.
    Command(Command),
    /// A quoted literal, or a bare token that is no number.
    Literal(String),
    /// A bare token that reads as a number, as it was written.
    Number(String),
    /// A bracketed variable reference: the name between the brackets.
    Variable(String),
    /// A jump target, set by the block pass.
    Lineptr(usize),
}

/// A command: a name and its arguments in order.
#[derive(PartialEq, Debug)]
pub struct Command {
    pub name: String,
    pub args: Vec<Expr>,
}

/// The mathematical content of an [`Expr`].
pub enum ExprView {
    Command(CommandView),
    Literal(Seq<char>),
    Number(Seq<char>),
    Variable(Seq<char>),
    Lineptr(usize),
}

/// The mathematical content of a [`Command`].
pub struct CommandView {
    pub name: Seq<char>,
    pub args: Seq<ExprView>,
}

/// The content of an expression.
pub open spec fn expr_view(e: Expr) -> ExprView
    decreases e,
{
    match e {
        Expr::Command(c) => ExprView::Command(
            CommandView {
                name: c.name@,
                args: Seq::new(
                    c.args@.len(),
                    |i: int|
                        if 0 <= i < c.args@.len() {
                            expr_view(c.args@[i])
                        } else {
                            ExprView::Lineptr(0)
                        },
                ),
            },
        ),
        Expr::Literal(s) => ExprView::Literal(s@),
        Expr::Number(s) => ExprView::Number(s@),
        Expr::Variable(s) => ExprView::Variable(s@),
        Expr::Lineptr(l) => ExprView::Lineptr(l),
    }
}

/// The contents of a sequence of expressions.
pub open spec fn expr_views(s: Seq<Expr>) -> Seq<ExprView> {
    Seq::new(s.len(), |i: int| expr_view(s[i]))
}

impl View for Expr {
    type V = ExprView;

    open spec fn view(&self) -> ExprView {
        expr_view(*self)
    }
}

impl DeepView for Expr {
    type V = ExprView;

    open spec fn deep_view(&self) -> ExprView {
        expr_view(*self)
    }
}

impl View for Command {
    type V = CommandView;

    open spec fn view(&self) -> CommandView {
        CommandView { name: self.name@, args: expr_views(self.args@) }
    }
}

impl DeepView for Command {
    type V = CommandView;

    open spec fn deep_view(&self) -> CommandView {
        self@
    }
}

/// The view of a command expression is the view of its command.
pub proof fn lemma_command_view(c: Command)
    ensures
        expr_view(Expr::Command(c)) == ExprView::Command(c@),
{
    assert(expr_view(Expr::Command(c))->Command_0.args =~= expr_views(c.args@));
}

impl Clone for Expr {
    fn clone(&self) -> (r: Self)
        ensures
            r@ == self@,
        decreases self, 0nat,
    {
        match self {
            Expr::Command(c) => {
                let copy = c.clone();
                proof {
                    lemma_command_view(*c);
                    lemma_command_view(copy);
                }
                Expr::Command(copy)
            },
            Expr::Literal(s) => Expr::Literal(s.clone()),
            Expr::Number(s) => Expr::Number(s.clone()),
            Expr::Variable(s) => Expr::Variable(s.clone()),
            Expr::Lineptr(l) => Expr::Lineptr(*l),
        }
    }
}

impl Clone for Command {
    fn clone(&self) -> (r: Self)
        ensures
            r@ == self@,
        decreases self, 1nat,
    {
        let mut args: Vec<Expr> = Vec::new();
        let mut i: usize = 0;
        while i < self.args.len()
            invariant
                i <= self.args.len(),
                args.len() == i,
                forall|j: int| 0 <= j < i ==> args@[j]@ == self.args@[j]@,
            decreases self.args.len() - i,
        {
            args.push(self.args[i].clone());
            i += 1;
        }
        assert(expr_views(args@) =~= expr_views(self.args@));
        Command { name: self.name.clone(), args }
    }
}

/// The contents of a parsed program, line by line.
pub open spec fn program_view(lines: Seq<Option<Command>>) -> Seq<Option<CommandView>> {
    Seq::new(
        lines.len(),
        |i: int|
            match lines[i] {
                Some(c) => Some(c@),
                None => None,
            },
    )
}

/// What is wrong with a program as a whole.
#[derive(Debug, Clone, Copy, PartialEq, Eq, Structural)]
pub enum ParseError {
    /// The line with this number, counted from 0, is malformed.
    Lined(usize, ParseErrorLine),
    /// A block is still open at the end of the program.
    UnclosedBlock,
    /// An `end` closes no block.
    UnexpectedEnd,
}

/// What is wrong with one line.
#[derive(Debug, Clone, Copy, PartialEq, Eq, Structural)]
pub enum ParseErrorLine {
    /// A quoted literal is not closed on its line.
    StringEOL,
    /// The first word of a command is no literal.
    NameIsNotString,
    /// A parenthesis is not closed.
    UnclosedParen,
    /// A closing parenthesis closes nothing.
    UnexpectedParen,
    /// A command without a single word.
    EmptyCommand,
}

/// The character is a decimal digit.
pub open spec fn is_digit(c: char) -> bool {
    '0' <= c && c <= '9'
}

/// The index at which the run of digits that starts at `i` ends.
pub open spec fn digits_end(t: Seq<char>, i: int) -> int
    decreases t.len() - i,
{
    if 0 <= i < t.len() && is_digit(t[i]) {
        digits_end(t, i + 1)
    } else {
        i
    }
}

/// The character is the given letter, in either case.
pub open spec fn is_letter(c: char, lower: char, upper: char) -> bool {
    c == lower || c == upper
}

/// The text from `i` on is one of the words `inf`, `infinity` and `nan`,
/// in any mix of cases.
pub open spec fn is_special(t: Seq<char>, i: int) -> bool {
    ||| {
        &&& t.len() - i == 3
        &&& is_letter(t[i], 'i', 'I')
        &&& is_letter(t[i + 1], 'n', 'N')
        &&& is_letter(t[i + 2], 'f', 'F')
    }
    ||| {
        &&& t.len() - i == 3
        &&& is_letter(t[i], 'n', 'N')
        &&& is_letter(t[i + 1], 'a', 'A')
        &&& is_letter(t[i + 2], 'n', 'N')
    }
    ||| {
        &&& t.len() - i == 8
        &&& is_letter(t[i], 'i', 'I')
        &&& is_letter(t[i + 1], 'n', 'N')
        &&& is_letter(t[i + 2], 'f', 'F')
        &&& is_letter(t[i + 3], 'i', 'I')
        &&& is_letter(t[i + 4], 'n', 'N')
        &&& is_letter(t[i + 5], 'i', 'I')
        &&& is_letter(t[i + 6], 't', 'T')
        &&& is_letter(t[i + 7], 'y', 'Y')
    }
}

/// The character is a sign.
pub open spec fn is_sign(c: char) -> bool {
    c == '+' || c == '-'
}

/// The text from `i` on is an exponent, or nothing: the letter `e` in
/// either case, an optional sign, and at least one digit up to the end.
pub open spec fn is_exponent(t: Seq<char>, i: int) -> bool {
    if i == t.len() {
        true
    } else if !is_letter(t[i], 'e', 'E') {
        false
    } else {
        let j = if i + 1 < t.len() && is_sign(t[i + 1]) {
            i + 2
        } else {
            i + 1
        };
        j < t.len() && digits_end(t, j) == t.len()
    }
}

/// The text from `i` on is a decimal numeral: digits with at most one point
/// among them and at least one digit, then an optional exponent.
pub open spec fn is_decimal(t: Seq<char>, i: int) -> bool {
    let a = digits_end(t, i);
    if a < t.len() && t[a] == '.' {
        let b = digits_end(t, a + 1);
        (a - i) + (b - (a + 1)) >= 1 && is_exponent(t, b)
    } else {
        a - i >= 1 && is_exponent(t, a)
    }
}

/// The token reads as a number: after an optional sign, one of the special
/// words or a decimal numeral.
pub open spec fn is_number(t: Seq<char>) -> bool {
    let i: int = if t.len() > 0 && is_sign(t[0]) {
        1
    } else {
        0
    };
    i < t.len() && (is_special(t, i) || is_decimal(t, i))
}

fn digit_run(t: &Vec<char>, i: usize) -> (j: usize)
    requires
        i <= t.len(),
    ensures
        j == digits_end(t@, i as int),
        i <= j <= t.len(),
{
    let mut j = i;
    while j < t.len() && '0' <= t[j] && t[j] <= '9'
        invariant
            i <= j <= t.len(),
            digits_end(t@, i as int) == digits_end(t@, j as int),
        decreases t.len() - j,
    {
        j += 1;
    }
    j
}

fn letter(c: char, lower: char, upper: char) -> (r: bool)
    ensures
        r == is_letter(c, lower, upper),
{
    c == lower || c == upper
}

fn special(t: &Vec<char>, i: usize) -> (r: bool)
    requires
        i <= t.len(),
    ensures
        r == is_special(t@, i as int),
{
    let n = t.len() - i;
    if n == 3 {
        (letter(t[i], 'i', 'I') && letter(t[i + 1], 'n', 'N') && letter(t[i + 2], 'f', 'F')) || (
        letter(t[i], 'n', 'N') && letter(t[i + 1], 'a', 'A') && letter(t[i + 2], 'n', 'N'))
    } else if n == 8 {
        letter(t[i], 'i', 'I') && letter(t[i + 1], 'n', 'N') && letter(t[i + 2], 'f', 'F')
            && letter(t[i + 3], 'i', 'I') && letter(t[i + 4], 'n', 'N') && letter(
            t[i + 5],
            'i',
            'I',
        ) && letter(t[i + 6], 't', 'T') && letter(t[i + 7], 'y', 'Y')
    } else {
        false
    }
}

fn exponent(t: &Vec<char>, i: usize) -> (r: bool)
    requires
        i <= t.len(),
    ensures
        r == is_exponent(t@, i as int),
{
    if i == t.len() {
        true
    } else if !letter(t[i], 'e', 'E') {
        false
    } else {
        let j = if i + 1 < t.len() && (t[i + 1] == '+' || t[i + 1] == '-') {
            i + 2
        } else {
            i + 1
        };
        j < t.len() && digit_run(t, j) == t.len()
    }
}

/// The token reads as a number.
pub fn reads_as_number(t: &Vec<char>) -> (r: bool)
    ensures
        r == is_number(t@),
{
    let i: usize = if t.len() > 0 && (t[0] == '+' || t[0] == '-') {
        1
    } else {
        0
    };
    if i >= t.len() {
        return false;
    }
    if special(t, i) {
        return true;
    }
    let a = digit_run(t, i);
    if a < t.len() && t[a] == '.' {
        let b = digit_run(t, a + 1);
        (a - i) + (b - (a + 1)) >= 1 && exponent(t, b)
    } else {
        a - i >= 1 && exponent(t, a)
    }
}

/// The expression that a bare token is: a variable when it stands between
/// brackets, a number when it reads as one, and a literal otherwise.
pub open spec fn classify(t: Seq<char>) -> ExprView {
    if t.len() >= 2 && t.first() == '[' && t.last() == ']' {
        ExprView::Variable(t.subrange(1, t.len() - 1))
    } else if is_number(t) {
        ExprView::Number(t)
    } else {
        ExprView::Literal(t)
    }
}

/// The index at which the bare token that holds position `i` ends: at a
/// space, at a closing parenthesis that closes none opened inside the token,
/// or at the end of the line. `level` counts the parentheses open inside the
/// token.
pub open spec fn bare_end(s: Seq<char>, i: int, level: nat) -> int
    decreases s.len() - i,
{
    if i < 0 || i >= s.len() {
        i
    } else if s[i] == '(' {
        bare_end(s, i + 1, level + 1)
    } else if s[i] == ')' && level > 0 {
        bare_end(s, i + 1, (level - 1) as nat)
    } else if s[i] == ' ' || s[i] == ')' {
        i
    } else {
        bare_end(s, i + 1, level)
    }
}

/// The index of the quote that closes the literal whose text starts at
/// `start`, looked for from `i` on: the first quote that no backslash stands
/// before and that a space, a closing parenthesis or the end of the line
/// follows.
pub open spec fn quote_end(s: Seq<char>, start: int, i: int) -> Option<int>
    decreases s.len() - i,
{
    if i < 0 || i >= s.len() {
        None
    } else if s[i] == '"' && !(i > start && s[i - 1] == '\\') && (i + 1 == s.len() || s[i + 1]
        == ' ' || s[i + 1] == ')') {
        Some(i)
    } else {
        quote_end(s, start, i + 1)
    }
}

/// What parsing a run of expressions comes to.
pub enum Parsed {
    /// The expressions, and the index after the run.
    Args(Seq<ExprView>, int),
    /// The error that stopped the parser.
    Failed(ParseErrorLine),
}

/// The command that a run of expressions is: the first must be a literal,
/// the name.
pub open spec fn command_of(args: Seq<ExprView>) -> Result<CommandView, ParseErrorLine> {
    if args.len() == 0 {
        Err(ParseErrorLine::EmptyCommand)
    } else {
        match args[0] {
            ExprView::Literal(name) => Ok(CommandView { name, args: args.skip(1) }),
            _ => Err(ParseErrorLine::NameIsNotString),
        }
    }
}

/// `p` with `e` before its expressions.
pub open spec fn after(e: ExprView, p: Parsed) -> Parsed {
    match p {
        Parsed::Args(rest, end) => Parsed::Args(seq![e] + rest, end),
        Parsed::Failed(x) => Parsed::Failed(x),
    }
}

/// The expressions of a command from position `i` on. At the top of a line
/// the run ends with the line, and a closing parenthesis is an error; inside
/// parentheses it ends after the closing parenthesis, and the end of the
/// line is an error. Spaces separate. An opening parenthesis starts a
/// sub-command, a quote a literal, and anything else a bare token.
pub open spec fn parse_run(s: Seq<char>, i: int, top: bool) -> Parsed
    decreases s.len() - i,
{
    if i < 0 || i >= s.len() {
        if top {
            Parsed::Args(Seq::empty(), i)
        } else {
            Parsed::Failed(ParseErrorLine::UnclosedParen)
        }
    } else if s[i] == ' ' {
        parse_run(s, i + 1, top)
    } else if s[i] == ')' {
        if top {
            Parsed::Failed(ParseErrorLine::UnexpectedParen)
        } else {
            Parsed::Args(Seq::empty(), i + 1)
        }
    } else if s[i] == '(' {
        match parse_run(s, i + 1, false) {
            Parsed::Failed(x) => Parsed::Failed(x),
            Parsed::Args(inner, end) => match command_of(inner) {
                Err(x) => Parsed::Failed(x),
                Ok(c) => if i < end <= s.len() {
                    after(ExprView::Command(c), parse_run(s, end, top))
                } else {
                    Parsed::Failed(ParseErrorLine::UnclosedParen)
                },
            },
        }
    } else if s[i] == '"' {
        match quote_end(s, i + 1, i + 1) {
            None => Parsed::Failed(ParseErrorLine::StringEOL),
            Some(q) => if i < q < s.len() {
                after(ExprView::Literal(s.subrange(i + 1, q)), parse_run(s, q + 1, top))
            } else {
                Parsed::Failed(ParseErrorLine::StringEOL)
            },
        }
    } else {
        let end = bare_end(s, i + 1, 0);
        if i < end <= s.len() {
            after(classify(s.subrange(i, end)), parse_run(s, end, top))
        } else {
            Parsed::Failed(ParseErrorLine::UnclosedParen)
        }
    }
}

fn bare_stop(s: &Vec<char>, i: usize) -> (end: usize)
    requires
        i <= s.len(),
    ensures
        end == bare_end(s@, i as int, 0),
        i <= end <= s.len(),
{
    let mut j = i;
    let mut level: usize = 0;
    while j < s.len()
        invariant
            i <= j <= s.len(),
            level <= j - i,
            bare_end(s@, i as int, 0) == bare_end(s@, j as int, level as nat),
        decreases s.len() - j,
    {
        let c = s[j];
        if c == '(' {
            level += 1;
        } else if c == ')' && level > 0 {
            level -= 1;
        } else if c == ' ' || c == ')' {
            return j;
        }
        j += 1;
    }
    j
}

fn quote_stop(s: &Vec<char>, start: usize) -> (r: Option<usize>)
    requires
        start <= s.len(),
    ensures
        match r {
            Some(q) => quote_end(s@, start as int, start as int) == Some(q as int) && start <= q
                < s.len(),
            None => quote_end(s@, start as int, start as int) is None,
        },
{
    let mut j = start;
    while j < s.len()
        invariant
            start <= j <= s.len(),
            quote_end(s@, start as int, start as int) == quote_end(s@, start as int, j as int),
        decreases s.len() - j,
    {
        if s[j] == '"' && !(j > start && s[j - 1] == '\\') && (j + 1 == s.len() || s[j + 1] == ' '
            || s[j + 1] == ')') {
            return Some(j);
        }
        j += 1;
    }
    None
}

fn text_between(s: &Vec<char>, from: usize, to: usize) -> (r: String)
    requires
        from <= to <= s.len(),
    ensures
        r@ == s@.subrange(from as int, to as int),
{
    let mut out = String::new();
    push_chars(&mut out, s, from, to);
    assert(out@ =~= s@.subrange(from as int, to as int));
    out
}

fn classified(s: &Vec<char>, from: usize, to: usize) -> (e: Expr)
    requires
        from < to <= s.len(),
    ensures
        e@ == classify(s@.subrange(from as int, to as int)),
{
    let ghost t = s@.subrange(from as int, to as int);
    if to - from >= 2 && s[from] == '[' && s[to - 1] == ']' {
        assert(t.subrange(1, t.len() - 1) =~= s@.subrange(from + 1, to - 1));
        Expr::Variable(text_between(s, from + 1, to - 1))
    } else {
        let mut token: Vec<char> = Vec::new();
        let mut i = from;
        while i < to
            invariant
                from <= i <= to <= s.len(),
                token@ == s@.subrange(from as int, i as int),
            decreases to - i,
        {
            token.push(s[i]);
            assert(token@ =~= s@.subrange(from as int, i + 1));
            i += 1;
        }
        if reads_as_number(&token) {
            Expr::Number(string_of(&token))
        } else {
            Expr::Literal(string_of(&token))
        }
    }
}

/// The view of a parser's result.
pub open spec fn parsed_view(r: Result<(Vec<Expr>, usize), ParseErrorLine>) -> Parsed {
    match r {
        Ok((args, end)) => Parsed::Args(expr_views(args@), end as int),
        Err(x) => Parsed::Failed(x),
    }
}

fn command_from(args: Vec<Expr>) -> (r: Result<Command, ParseErrorLine>)
    ensures
        match r {
            Ok(c) => command_of(expr_views(args@)) == Ok::<CommandView, ParseErrorLine>(c@),
            Err(x) => command_of(expr_views(args@)) == Err::<CommandView, ParseErrorLine>(x),
        },
{
    let mut args = args;
    let ghost before = expr_views(args@);
    if args.len() == 0 {
        return Err(ParseErrorLine::EmptyCommand);
    }
    let first = args.remove(0);
    assert(expr_views(args@) =~= before.skip(1));
    assert(first@ == before[0]);
    match first {
        Expr::Literal(name) => Ok(Command { name, args }),
        Expr::Command(c) => {
            proof {
                lemma_command_view(c);
            }
            Err(ParseErrorLine::NameIsNotString)
        },
        _ => Err(ParseErrorLine::NameIsNotString),
    }
}

/// Parses the expressions of a command from position `i` on.
pub fn parse_command(s: &Vec<char>, i: usize, top: bool) -> (r: Result<
    (Vec<Expr>, usize),
    ParseErrorLine,
>)
    requires
        i <= s.len(),
    ensures
        parsed_view(r) == parse_run(s@, i as int, top),
        r matches Ok((_, end)) ==> i <= end <= s.len() && (!top ==> i < end),
    decreases s.len() - i,
{
    let mut args: Vec<Expr> = Vec::new();
    let mut j = i;
    assert(expr_views(args@) =~= Seq::<ExprView>::empty());
    loop
        invariant
            i <= j <= s.len(),
            match parse_run(s@, j as int, top) {
                Parsed::Args(rest, end) => parse_run(s@, i as int, top) == Parsed::Args(
                    expr_views(args@) + rest,
                    end,
                ),
                Parsed::Failed(x) => parse_run(s@, i as int, top) == Parsed::Failed(x),
            },
        decreases s.len() - j,
    {
        let ghost done = expr_views(args@);
        if j >= s.len() {
            if top {
                assert(done + Seq::<ExprView>::empty() =~= done);
                return Ok((args, j));
            } else {
                return Err(ParseErrorLine::UnclosedParen);
            }
        }
        let c = s[j];
        if c == ' ' {
            j += 1;
        } else if c == ')' {
            if top {
                return Err(ParseErrorLine::UnexpectedParen);
            } else {
                assert(done + Seq::<ExprView>::empty() =~= done);
                return Ok((args, j + 1));
            }
        } else if c == '(' {
            match parse_command(s, j + 1, false) {
                Err(x) => {
                    return Err(x);
                },
                Ok((inner, end)) => match command_from(inner) {
                    Err(x) => {
                        return Err(x);
                    },
                    Ok(sub) => {
                        proof {
                            lemma_command_view(sub);
                        }
                        args.push(Expr::Command(sub));
                        proof {
                            lemma_extend(done, ExprView::Command(sub@), parse_run(s@, end as int, top));
                            assert(expr_views(args@) =~= done + seq![ExprView::Command(sub@)]);
                        }
                        j = end;
                    },
                },
            }
        } else if c == '"' {
            match quote_stop(s, j + 1) {
                None => {
                    return Err(ParseErrorLine::StringEOL);
                },
                Some(q) => {
                    let text = text_between(s, j + 1, q);
                    args.push(Expr::Literal(text));
                    proof {
                        lemma_extend(done, ExprView::Literal(text@), parse_run(s@, q + 1, top));
                        assert(expr_views(args@) =~= done + seq![ExprView::Literal(text@)]);
                    }
                    j = q + 1;
                },
            }
        } else {
            let end = bare_stop(s, j + 1);
            let e = classified(s, j, end);
            args.push(e);
            proof {
                lemma_extend(done, e@, parse_run(s@, end as int, top));
                assert(expr_views(args@) =~= done + seq![e@]);
            }
            j = end;
        }
    }
}

proof fn lemma_extend(done: Seq<ExprView>, e: ExprView, p: Parsed)
    ensures
        match p {
            Parsed::Args(rest, end) => after(e, p) == Parsed::Args(seq![e] + rest, end) && done + (
            seq![e] + rest) == (done + seq![e]) + rest,
            Parsed::Failed(x) => after(e, p) == Parsed::Failed(x),
        },
{
    match p {
        Parsed::Args(rest, end) => {
            assert(done + (seq![e] + rest) =~= (done + seq![e]) + rest);
        },
        Parsed::Failed(x) => {},
    }
}

/// The character is white space: it has the Unicode property White_Space.
pub open spec fn is_space(c: char) -> bool {
    ||| ('\u{9}' <= c && c <= '\u{d}')
    ||| c == ' '
    ||| c == '\u{85}'
    ||| c == '\u{a0}'
    ||| c == '\u{1680}'
    ||| ('\u{2000}' <= c && c <= '\u{200a}')
    ||| c == '\u{2028}'
    ||| c == '\u{2029}'
    ||| c == '\u{202f}'
    ||| c == '\u{205f}'
    ||| c == '\u{3000}'
}

/// `char::is_whitespace`: whether the character has the Unicode property
/// White_Space, that is, whether it is one of the code points that
/// `is_space` lists.
#[verifier::external_body]
fn whitespace(c: char) -> (r: bool)
    ensures
        r == is_space(c),
{
    c.is_whitespace()
}

/// The index of the first character from `i` on that is no white space.
pub open spec fn trim_start(s: Seq<char>, i: int) -> int
    decreases s.len() - i,
{
    if 0 <= i < s.len() && is_space(s[i]) {
        trim_start(s, i + 1)
    } else {
        i
    }
}

/// The index after the last character before `j`, and not before `lo`, that
/// is no white space.
pub open spec fn trim_end(s: Seq<char>, lo: int, j: int) -> int
    decreases j,
{
    if 0 <= lo < j <= s.len() && is_space(s[j - 1]) {
        trim_end(s, lo, j - 1)
    } else {
        j
    }
}

/// The line without the white space at its two ends.
pub open spec fn trimmed(s: Seq<char>) -> Seq<char> {
    let lo = trim_start(s, 0);
    let hi = trim_end(s, lo, s.len() as int);
    s.subrange(lo, hi)
}

/// The index of the first line feed from `i` on, or the length of the text.
pub open spec fn line_end(s: Seq<char>, i: int) -> int
    decreases s.len() - i,
{
    if 0 <= i < s.len() && s[i] != '\n' {
        line_end(s, i + 1)
    } else {
        i
    }
}

/// The lines of the text from `i` on: what stands between the line feeds.
pub open spec fn lines_from(s: Seq<char>, i: int) -> Seq<Seq<char>>
    decreases s.len() - i,
{
    let e = line_end(s, i);
    if 0 <= i <= e < s.len() {
        seq![s.subrange(i, e)] + lines_from(s, e + 1)
    } else {
        seq![s.subrange(i, s.len() as int)]
    }
}

/// The lines of a text.
pub open spec fn lines_of(s: Seq<char>) -> Seq<Seq<char>> {
    lines_from(s, 0)
}

/// The command of one line: none for a line that is blank or starts, after
/// its white space, with `#`.
pub open spec fn line_command(line: Seq<char>) -> Result<Option<CommandView>, ParseErrorLine> {
    let t = trimmed(line);
    if t.len() == 0 || t[0] == '#' {
        Ok(None)
    } else {
        match parse_run(t, 0, true) {
            Parsed::Failed(x) => Err(x),
            Parsed::Args(args, _) => match command_of(args) {
                Ok(c) => Ok(Some(c)),
                Err(x) => Err(x),
            },
        }
    }
}

/// The name opens a block.
pub open spec fn is_opener(name: Seq<char>) -> bool {
    name == "if"@ || name == "while"@ || name == "define"@ || name == "_func"@ || name == "_cmd"@
}

/// The block pass in the middle of a program: the lines so far, and the
/// lines of the openers that are not closed yet, the innermost last.
pub struct Pass {
    pub commands: Seq<Option<CommandView>>,
    pub open: Seq<usize>,
}

/// The command `c` with the line `target` as one more argument.
pub open spec fn pointing(c: CommandView, target: usize) -> CommandView {
    CommandView { name: c.name, args: c.args.push(ExprView::Lineptr(target)) }
}

/// The command of a line, if it has one.
pub open spec fn command_at(commands: Seq<Option<CommandView>>, i: int) -> CommandView {
    match commands[i] {
        Some(c) => c,
        None => CommandView { name: Seq::empty(), args: Seq::empty() },
    }
}

/// The block pass takes one more line. An opener is noted as open. An `end`
/// closes the innermost open opener: the opener gets the line of the `end`
/// as its last argument, and the `end` gets the line of the opener as its
/// last argument and the name of the opener after its own. An `end` with
/// nothing open is an error.
pub open spec fn pass_step(p: Pass, line: Option<CommandView>) -> Result<Pass, ParseError> {
    let lineno = p.commands.len() as usize;
    match line {
        None => Ok(Pass { commands: p.commands.push(None), open: p.open }),
        Some(c) => if is_opener(c.name) {
            Ok(Pass { commands: p.commands.push(Some(c)), open: p.open.push(lineno) })
        } else if c.name == "end"@ {
            if p.open.len() == 0 {
                Err(ParseError::UnexpectedEnd)
            } else {
                let start = p.open.last();
                let opener = command_at(p.commands, start as int);
                Ok(
                    Pass {
                        commands: p.commands.update(start as int, Some(pointing(opener, lineno))).push(
                            Some(
                                CommandView {
                                    name: "end "@ + opener.name,
                                    args: c.args.push(ExprView::Lineptr(start)),
                                },
                            ),
                        ),
                        open: p.open.drop_last(),
                    },
                )
            }
        } else {
            Ok(Pass { commands: p.commands.push(Some(c)), open: p.open })
        },
    }
}

/// The block pass after the first `n` lines: the first line that is
/// malformed, or whose `end` closes nothing, stops the pass with its error.
pub open spec fn pass_upto(lines: Seq<Seq<char>>, n: int) -> Result<Pass, ParseError>
    decreases n,
{
    if n <= 0 {
        Ok(Pass { commands: Seq::empty(), open: Seq::empty() })
    } else {
        match pass_upto(lines, n - 1) {
            Err(e) => Err(e),
            Ok(p) => match line_command(lines[n - 1]) {
                Err(x) => Err(ParseError::Lined((n - 1) as usize, x)),
                Ok(line) => pass_step(p, line),
            },
        }
    }
}

/// The parsed program of a text: one entry for each line, every block
/// opener tied to its `end`. A block that is still open at the end is an
/// error.
pub open spec fn parse_of(code: Seq<char>) -> Result<Seq<Option<CommandView>>, ParseError> {
    let lines = lines_of(code);
    match pass_upto(lines, lines.len() as int) {
        Err(e) => Err(e),
        Ok(p) => if p.open.len() > 0 {
            Err(ParseError::UnclosedBlock)
        } else {
            Ok(p.commands)
        },
    }
}

/// The pass over the first `n` lines looks at no other line.
pub proof fn lemma_pass_is_local(a: Seq<Seq<char>>, b: Seq<Seq<char>>, n: int)
    requires
        0 <= n <= a.len(),
        n <= b.len(),
        forall|i: int| 0 <= i < n ==> a[i] == b[i],
    ensures
        pass_upto(a, n) == pass_upto(b, n),
    decreases n,
{
    if n > 0 {
        lemma_pass_is_local(a, b, n - 1);
    }
}

fn line_stop(s: &Vec<char>, i: usize) -> (e: usize)
    requires
        i <= s.len(),
    ensures
        e == line_end(s@, i as int),
        i <= e <= s.len(),
{
    let mut j = i;
    while j < s.len() && s[j] != '\n'
        invariant
            i <= j <= s.len(),
            line_end(s@, i as int) == line_end(s@, j as int),
        decreases s.len() - j,
    {
        j += 1;
    }
    j
}

/// The characters `s[from..to]` without the white space at the two ends.
fn trim(s: &Vec<char>, from: usize, to: usize) -> (t: Vec<char>)
    requires
        from <= to <= s.len(),
    ensures
        t@ == trimmed(s@.subrange(from as int, to as int)),
{
    let ghost line = s@.subrange(from as int, to as int);
    let mut lo = from;
    while lo < to && whitespace(s[lo])
        invariant
            from <= lo <= to <= s.len(),
            line == s@.subrange(from as int, to as int),
            trim_start(line, 0) == trim_start(line, lo - from),
        decreases to - lo,
    {
        lo += 1;
    }
    let mut hi = to;
    while lo < hi && whitespace(s[hi - 1])
        invariant
            from <= lo <= hi <= to <= s.len(),
            line == s@.subrange(from as int, to as int),
            trim_end(line, lo - from, line.len() as int) == trim_end(line, lo - from, hi - from),
        decreases hi - lo,
    {
        hi -= 1;
    }
    let mut t: Vec<char> = Vec::new();
    let mut i = lo;
    while i < hi
        invariant
            lo <= i <= hi <= s.len(),
            t@ == s@.subrange(lo as int, i as int),
        decreases hi - i,
    {
        t.push(s[i]);
        assert(t@ =~= s@.subrange(lo as int, i + 1));
        i += 1;
    }
    assert(t@ =~= line.subrange(lo - from, hi - from));
    t
}

/// Parses the command of the line `s[from..to]`.
fn parse_range(s: &Vec<char>, from: usize, to: usize) -> (r: Result<Option<Command>, ParseErrorLine>)
    requires
        from <= to <= s.len(),
    ensures
        match r {
            Ok(Some(c)) => line_command(s@.subrange(from as int, to as int)) == Ok::<
                Option<CommandView>,
                ParseErrorLine,
            >(Some(c@)),
            Ok(None) => line_command(s@.subrange(from as int, to as int)) == Ok::<
                Option<CommandView>,
                ParseErrorLine,
            >(None),
            Err(x) => line_command(s@.subrange(from as int, to as int)) == Err::<
                Option<CommandView>,
                ParseErrorLine,
            >(x),
        },
{
    let t = trim(s, from, to);
    if t.len() == 0 || t[0] == '#' {
        return Ok(None);
    }
    match parse_command(&t, 0, true) {
        Err(x) => Err(x),
        Ok((args, _)) => match command_from(args) {
            Ok(c) => Ok(Some(c)),
            Err(x) => Err(x),
        },
    }
}

/// Parses one line.
pub fn parse_line(line: &str) -> (r: Result<Option<Command>, ParseErrorLine>)
    ensures
        match r {
            Ok(Some(c)) => line_command(line@) == Ok::<Option<CommandView>, ParseErrorLine>(
                Some(c@),
            ),
            Ok(None) => line_command(line@) == Ok::<Option<CommandView>, ParseErrorLine>(None),
            Err(x) => line_command(line@) == Err::<Option<CommandView>, ParseErrorLine>(x),
        },
{
    let chars = chars_of(line);
    assert(chars@.subrange(0, chars.len() as int) =~= chars@);
    parse_range(&chars, 0, chars.len())
}

fn opener(name: &str) -> (r: bool)
    ensures
        r == is_opener(name@),
{
    str_eq(name, "if") || str_eq(name, "while") || str_eq(name, "define") || str_eq(name, "_func")
        || str_eq(name, "_cmd")
}

/// Once the pass has failed, it stays failed.
pub proof fn lemma_pass_stays_failed(lines: Seq<Seq<char>>, n: int, m: int)
    requires
        0 <= n <= m,
        pass_upto(lines, n) is Err,
    ensures
        pass_upto(lines, m) == pass_upto(lines, n),
    decreases m - n,
{
    if n < m {
        lemma_pass_stays_failed(lines, n, m - 1);
    }
}

fn point(c: &mut Command, target: usize)
    ensures
        final(c)@ == pointing(old(c)@, target),
{
    let ghost before = expr_views(c.args@);
    c.args.push(Expr::Lineptr(target));
    assert(expr_views(c.args@) =~= before.push(ExprView::Lineptr(target)));
}

/// Parses a program: one entry for each line of the text, `None` for a
/// blank line or a comment, and every block opener tied to its `end`.
pub fn parse(code: &str) -> (r: Result<Vec<Option<Command>>, ParseError>)
    ensures
        match r {
            Ok(commands) => parse_of(code@) == Ok::<Seq<Option<CommandView>>, ParseError>(
                program_view(commands@),
            ),
            Err(e) => parse_of(code@) == Err::<Seq<Option<CommandView>>, ParseError>(e),
        },
{
    let s = chars_of(code);
    let ghost all = lines_of(s@);
    let mut commands: Vec<Option<Command>> = Vec::new();
    let mut open: Vec<usize> = Vec::new();
    let ghost mut lines: Seq<Seq<char>> = Seq::empty();
    let mut pos: usize = 0;
    assert(program_view(commands@) =~= Seq::<Option<CommandView>>::empty());
    assert(lines + lines_from(s@, 0) =~= all);
    loop
        invariant_except_break
            pos <= s.len(),
            all == lines + lines_from(s@, pos as int),
        invariant
            s@ == code@,
            all == lines_of(s@),
            commands.len() == lines.len(),
            lines.len() <= all.len(),
            pass_upto(all, lines.len() as int) == Ok::<Pass, ParseError>(
                Pass { commands: program_view(commands@), open: open@ },
            ),
            forall|k: int|
                0 <= k < open.len() ==> (#[trigger] open@[k]) < commands.len()
                    && commands@[open@[k] as int] is Some,
        ensures
            lines.len() == all.len(),
        decreases s.len() - pos,
    {
        let e = line_stop(&s, pos);
        let ghost line = s@.subrange(pos as int, e as int);
        let ghost k = lines.len() as int;
        assert(all[k] == lines_from(s@, pos as int)[0]);
        assert(all[k] == line) by {
            if e < s.len() {
            } else {
                assert(s@.subrange(pos as int, s.len() as int) == line);
            }
        }
        let lineno = commands.len();
        let ghost before = program_view(commands@);
        match parse_range(&s, pos, e) {
            Err(x) => {
                proof {
                    assert(pass_upto(all, k + 1) == Err::<Pass, ParseError>(ParseError::Lined(lineno, x)));
                    lemma_pass_stays_failed(all, k + 1, all.len() as int);
                }
                return Err(ParseError::Lined(lineno, x));
            },
            Ok(None) => {
                commands.push(None);
                assert(program_view(commands@) =~= before.push(None));
            },
            Ok(Some(c)) => {
                if opener(c.name.as_str()) {
                    open.push(lineno);
                    commands.push(Some(c));
                    assert(program_view(commands@) =~= before.push(Some(c@)));
                } else if str_eq(c.name.as_str(), "end") {
                    let ghost stack = open@;
                    match open.pop() {
                        None => {
                            proof {
                                assert(pass_upto(all, k + 1) == Err::<Pass, ParseError>(
                                    ParseError::UnexpectedEnd,
                                ));
                                lemma_pass_stays_failed(all, k + 1, all.len() as int);
                            }
                            return Err(ParseError::UnexpectedEnd);
                        },
                        Some(start) => {
                            let mut c = c;
                            let ghost closing = c@;
                            let mut name = "end ".to_owned();
                            match &mut commands[start] {
                                Some(op) => {
                                    crate::text::push_str(&mut name, op.name.as_str());
                                    point(op, lineno);
                                },
                                None => {},
                            }
                            c.name = name;
                            point(&mut c, start);
                            commands.push(Some(c));
                            assert(program_view(commands@) =~= before.update(
                                start as int,
                                Some(pointing(command_at(before, start as int), lineno)),
                            ).push(
                                Some(
                                    CommandView {
                                        name: "end "@ + command_at(before, start as int).name,
                                        args: closing.args.push(ExprView::Lineptr(start)),
                                    },
                                ),
                            ));
                        },
                    }
                } else {
                    commands.push(Some(c));
                    assert(program_view(commands@) =~= before.push(Some(c@)));
                }
            },
        }
        proof {
            lines = lines.push(line);
        }
        if e >= s.len() {
            assert(lines =~= all);
            break ;
        }
        pos = e + 1;
        assert(all =~= lines + lines_from(s@, pos as int));
    }
    if open.len() > 0 {
        Err(ParseError::UnclosedBlock)
    } else {
        Ok(commands)
    }
}

/// The message of a line error.
pub open spec fn line_error_text(e: ParseErrorLine) -> Seq<char> {
    match e {
        ParseErrorLine::StringEOL => "quoted strings cannot span multiple lines"@,
        ParseErrorLine::NameIsNotString => "the name of a command must be a string, try using _apply"@,
        ParseErrorLine::UnclosedParen => "unclosed parenthesis"@,
        ParseErrorLine::UnexpectedParen => "unexpected parenthesis"@,
        ParseErrorLine::EmptyCommand => "empty command"@,
    }
}

/// The message of a parse error.
pub open spec fn parse_error_text(e: ParseError) -> Seq<char> {
    match e {
        ParseError::Lined(line, x) => "error at line "@ + decimal_text(line as nat) + ": "@
            + line_error_text(x),
        ParseError::UnclosedBlock => "unclosed block"@,
        ParseError::UnexpectedEnd => "unexpected `end`"@,
    }
}

impl ParseErrorLine {
    /// The message of the error.
    pub fn message(&self) -> (r: String)
        ensures
            r@ == line_error_text(*self),
    {
        match self {
            ParseErrorLine::StringEOL => "quoted strings cannot span multiple lines".to_owned(),
            ParseErrorLine::NameIsNotString => "the name of a command must be a string, try using _apply".to_owned(),
            ParseErrorLine::UnclosedParen => "unclosed parenthesis".to_owned(),
            ParseErrorLine::UnexpectedParen => "unexpected parenthesis".to_owned(),
            ParseErrorLine::EmptyCommand => "empty command".to_owned(),
        }
    }
}

impl ParseError {
    /// The message of the error.
    pub fn message(&self) -> (r: String)
        ensures
            r@ == parse_error_text(*self),
    {
        match self {
            ParseError::Lined(line, x) => {
                let mut out = "error at line ".to_owned();
                push_decimal(&mut out, *line as u64);
                push_str(&mut out, ": ");
                push_str(&mut out, x.message().as_str());
                out
            },
            ParseError::UnclosedBlock => "unclosed block".to_owned(),
            ParseError::UnexpectedEnd => "unexpected `end`".to_owned(),
        }
    }
}

/// The text with a backslash before every quote.
pub open spec fn escaped(s: Seq<char>) -> Seq<char>
    decreases s.len(),
{
    if s.len() == 0 {
        Seq::empty()
    } else if s.last() == '"' {
        escaped(s.drop_last()) + "\\\""@
    } else {
        escaped(s.drop_last()).push(s.last())
    }
}

/// The text of an expression, as a listing of the parsed program shows it.
pub open spec fn expr_text(e: ExprView) -> Seq<char>
    decreases e, 0nat,
{
    match e {
        ExprView::Command(c) => c.name + "("@ + args_text(c.args, c.args.len()) + ")"@,
        ExprView::Literal(s) => "\""@ + escaped(s) + "\""@,
        ExprView::Number(s) => s,
        ExprView::Variable(s) => "["@ + s + "]"@,
        ExprView::Lineptr(l) => "(line "@ + decimal_text(l as nat) + ")"@,
    }
}

/// The texts of the first `n` arguments, with a space between each two.
pub open spec fn args_text(args: Seq<ExprView>, n: nat) -> Seq<char>
    decreases args, n,
{
    if n == 0 || n > args.len() {
        Seq::empty()
    } else if n == 1 {
        expr_text(args[0])
    } else {
        args_text(args, (n - 1) as nat) + " "@ + expr_text(args[n - 1])
    }
}

/// The text of a command: its name, and its arguments between parentheses.
pub open spec fn command_text(c: CommandView) -> Seq<char> {
    c.name + "("@ + args_text(c.args, c.args.len()) + ")"@
}

fn push_escaped(out: &mut String, s: &str)
    ensures
        final(out)@ == old(out)@ + escaped(s@),
{
    let chars = chars_of(s);
    let mut i: usize = 0;
    assert(chars@.take(0) =~= Seq::<char>::empty());
    while i < chars.len()
        invariant
            i <= chars.len(),
            chars@ == s@,
            out@ == old(out)@ + escaped(chars@.take(i as int)),
        decreases chars.len() - i,
    {
        assert(chars@.take(i + 1).drop_last() =~= chars@.take(i as int));
        if chars[i] == '"' {
            push_str(out, "\\\"");
        } else {
            push_chars(out, &chars, i, i + 1);
            assert(chars@.subrange(i as int, i + 1) =~= seq![chars@[i as int]]);
        }
        assert(out@ =~= old(out)@ + escaped(chars@.take(i + 1)));
        i += 1;
    }
    assert(chars@.take(chars.len() as int) =~= chars@);
}

impl Expr {
    /// Appends the text of the expression to `out`.
    pub fn push_text(&self, out: &mut String)
        ensures
            final(out)@ == old(out)@ + expr_text(self@),
        decreases self, 0nat,
    {
        match self {
            Expr::Command(c) => {
                proof {
                    lemma_command_view(*c);
                }
                c.push_text(out);
            },
            Expr::Literal(s) => {
                push_str(out, "\"");
                push_escaped(out, s.as_str());
                push_str(out, "\"");
                assert(out@ =~= old(out)@ + expr_text(self@));
            },
            Expr::Number(s) => push_str(out, s.as_str()),
            Expr::Variable(s) => {
                push_str(out, "[");
                push_str(out, s.as_str());
                push_str(out, "]");
                assert(out@ =~= old(out)@ + expr_text(self@));
            },
            Expr::Lineptr(l) => {
                push_str(out, "(line ");
                push_decimal(out, *l as u64);
                push_str(out, ")");
                assert(out@ =~= old(out)@ + expr_text(self@));
            },
        }
    }
}

impl Command {
    /// Appends the text of the command to `out`.
    pub fn push_text(&self, out: &mut String)
        ensures
            final(out)@ == old(out)@ + command_text(self@),
        decreases self, 1nat,
    {
        push_str(out, self.name.as_str());
        push_str(out, "(");
        let ghost head = out@;
        let ghost args = expr_views(self.args@);
        let mut i: usize = 0;
        while i < self.args.len()
            invariant
                i <= self.args.len(),
                args == expr_views(self.args@),
                out@ == head + args_text(args, i as nat),
            decreases self.args.len() - i,
        {
            if i > 0 {
                push_str(out, " ");
            }
            self.args[i].push_text(out);
            assert(out@ =~= head + args_text(args, (i + 1) as nat));
            i += 1;
        }
        push_str(out, ")");
        assert(out@ =~= old(out)@ + command_text(self@));
    }

    /// The text of the command.
    pub fn text(&self) -> (r: String)
        ensures
            r@ == command_text(self@),
    {
        let mut out = String::new();
        self.push_text(&mut out);
        assert(out@ =~= command_text(self@));
        out
    }
}

/// The line is nothing but a variable in brackets.
pub open spec fn is_question(t: Seq<char>) -> bool {
    t.len() > 0 && t.first() == '[' && t.last() == ']' && forall|i: int|
        0 <= i < t.len() ==> t[i] != ' '
}

/// The line as the console reads it: a line that is nothing but a variable
/// in brackets stands for the command that prints the variable.
pub open spec fn console_text(line: Seq<char>) -> Seq<char> {
    if is_question(trimmed(line)) {
        "print "@ + trimmed(line)
    } else {
        line
    }
}

/// The line as the console reads it.
#[verifier::loop_isolation(false)]
pub fn console_line(line: &str) -> (r: String)
    ensures
        r@ == console_text(line@),
{
    let chars = chars_of(line);
    assert(chars@.subrange(0, chars.len() as int) =~= chars@);
    let t = trim(&chars, 0, chars.len());
    let mut plain = t.len() > 0 && t[0] == '[' && t[t.len() - 1] == ']';
    let mut i: usize = 0;
    while plain && i < t.len()
        invariant
            i <= t.len(),
            plain ==> t.len() > 0 && t@[0] == '[' && t@[t.len() - 1] == ']',
            plain ==> forall|j: int| 0 <= j < i ==> t@[j] != ' ',
            !plain ==> !is_question(t@),
        decreases t.len() - i,
    {
        if t[i] == ' ' {
            plain = false;
        }
        i += 1;
    }
    if plain {
        let mut out = "print ".to_owned();
        push_chars(&mut out, &t, 0, t.len());
        assert(t@.subrange(0, t.len() as int) =~= t@);
        out
    } else {
        string_of(&chars)
    }
}

} // verus!
