//! What the block pass guarantees: openers and `end`s are matched like
//! brackets.

use vstd::prelude::*;
use crate::parse::{
    command_at, is_opener, line_command, lines_of, parse_of, pass_step, pass_upto, pointing,
    CommandView, ExprView, ParseError, Pass,
};

verus! {

/// The command of line `i` as it stands in the text, before the block pass.
pub open spec fn raw_line(lines: Seq<Seq<char>>, i: int) -> Option<CommandView> {
    match line_command(lines[i]) {
        Ok(c) => c,
        Err(_) => None,
    }
}

/// The line opens a block.
pub open spec fn opens(line: Option<CommandView>) -> bool {
    line matches Some(c) && is_opener(c.name)
}

/// The line is an `end`.
pub open spec fn closes(line: Option<CommandView>) -> bool {
    line matches Some(c) && !is_opener(c.name) && c.name == "end"@
}

/// The line that the last argument of a command points to.
pub open spec fn target(line: Option<CommandView>) -> int {
    match line {
        Some(c) => if c.args.len() > 0 {
            match c.args.last() {
                ExprView::Lineptr(l) => l as int,
                _ => -1,
            }
        } else {
            -1
        },
        None => -1,
    }
}

/// The `end` command `e` after it was tied to the opener `o` of line
/// `start`.
pub open spec fn closer(e: CommandView, o: CommandView, start: usize) -> CommandView {
    CommandView { name: "end "@ + o.name, args: e.args.push(ExprView::Lineptr(start)) }
}

/// In the parsed program `cs`, the opener of line `i` and the `end` of line
/// `j` are tied to each other: each is the command of its line with the
/// line of the other as one more argument, and the `end` bears the
/// opener's name after its own.
pub open spec fn paired(lines: Seq<Seq<char>>, cs: Seq<Option<CommandView>>, i: int, j: int) -> bool {
    &&& 0 <= i < j < cs.len()
    &&& opens(raw_line(lines, i))
    &&& closes(raw_line(lines, j))
    &&& cs[i] == Some(pointing(raw_line(lines, i)->0, j as usize))
    &&& cs[j] == Some(closer(raw_line(lines, j)->0, raw_line(lines, i)->0, i as usize))
}

/// Line `i` is among the open openers.
pub open spec fn waits(open: Seq<usize>, i: int) -> bool {
    exists|k: int| 0 <= k < open.len() && #[trigger] open[k] == i
}

/// Line `i` is as the block pass leaves it: an opener is still open or tied
/// to its `end`, an `end` is tied to its opener, and any other line is as it
/// stands in the text.
pub open spec fn settled(lines: Seq<Seq<char>>, p: Pass, i: int) -> bool {
    let r = raw_line(lines, i);
    if opens(r) {
        waits(p.open, i) || paired(lines, p.commands, i, target(p.commands[i]))
    } else if closes(r) {
        paired(lines, p.commands, target(p.commands[i]), i) && !waits(
            p.open,
            target(p.commands[i]),
        )
    } else {
        p.commands[i] == r
    }
}

/// Line `i` is an opener that has been closed.
pub open spec fn closed(lines: Seq<Seq<char>>, p: Pass, i: int) -> bool {
    0 <= i < p.commands.len() && opens(raw_line(lines, i)) && !waits(p.open, i)
}

/// What holds of the block pass after `n` lines.
pub open spec fn tied(lines: Seq<Seq<char>>, p: Pass, n: int) -> bool {
    &&& p.commands.len() == n
    &&& forall|k: int|
        0 <= k < p.open.len() ==> {
            let s = #[trigger] p.open[k] as int;
            s < n && opens(raw_line(lines, s)) && p.commands[s] == raw_line(lines, s)
        }
    &&& forall|k1: int, k2: int|
        0 <= k1 < k2 < p.open.len() ==> (#[trigger] p.open[k1]) < (#[trigger] p.open[k2])
    &&& forall|i: int| 0 <= i < n ==> #[trigger] settled(lines, p, i)
    &&& forall|i: int, k: int|
        #![trigger closed(lines, p, i), p.open[k]]
        closed(lines, p, i) && 0 <= k < p.open.len() ==> !(i < p.open[k] < target(p.commands[i]))
    &&& forall|i: int, i2: int|
        #![trigger closed(lines, p, i), closed(lines, p, i2)]
        closed(lines, p, i) && closed(lines, p, i2) && i < i2 < target(p.commands[i]) ==> target(
            p.commands[i2],
        ) < target(p.commands[i])
}

proof fn lemma_step_keeps_tied(lines: Seq<Seq<char>>, p: Pass, n: int)
    requires
        0 <= n < lines.len(),
        n < usize::MAX,
        tied(lines, p, n),
        line_command(lines[n]) is Ok,
        pass_step(p, line_command(lines[n])->Ok_0) is Ok,
    ensures
        tied(lines, pass_step(p, line_command(lines[n])->Ok_0)->Ok_0, n + 1),
{
    let line = line_command(lines[n])->Ok_0;
    let q = pass_step(p, line)->Ok_0;
    let r = raw_line(lines, n);
    assert(r == line);
    assert(p.commands.len() as usize == n);
    if opens(r) {
        let c = line->0;
        assert(q.open == p.open.push(n as usize));
        assert(q.commands == p.commands.push(Some(c)));
        assert(waits(q.open, n)) by {
            assert(q.open[p.open.len() as int] == n);
        }
        assert forall|i: int| 0 <= i < n implies #[trigger] waits(q.open, i) == waits(p.open, i) by {
            if waits(p.open, i) {
                let k = choose|k: int| 0 <= k < p.open.len() && #[trigger] p.open[k] == i;
                assert(q.open[k] == i);
            }
            if waits(q.open, i) {
                let k = choose|k: int| 0 <= k < q.open.len() && #[trigger] q.open[k] == i;
                assert(k < p.open.len());
                assert(p.open[k] == i);
            }
        }
        assert forall|i: int| 0 <= i < n + 1 implies #[trigger] settled(lines, q, i) by {
            if i < n {
                assert(settled(lines, p, i));
                assert(q.commands[i] == p.commands[i]);
                let t = target(p.commands[i]);
                if opens(raw_line(lines, i)) {
                } else if closes(raw_line(lines, i)) {
                    assert(0 <= t < n);
                    assert(waits(q.open, t) == waits(p.open, t));
                }
            }
        }
        assert forall|i: int, k: int|
            #![trigger closed(lines, q, i), q.open[k]]
            closed(lines, q, i) && 0 <= k < q.open.len() implies !(i < q.open[k] < target(
            q.commands[i],
        )) by {
            assert(i != n);
            assert(i < n);
            assert(closed(lines, p, i));
            assert(settled(lines, p, i));
            assert(q.commands[i] == p.commands[i]);
            if k < p.open.len() {
                assert(q.open[k] == p.open[k]);
            } else {
                assert(target(p.commands[i]) < n);
            }
        }
        assert forall|i: int, i2: int|
            #![trigger closed(lines, q, i), closed(lines, q, i2)]
            closed(lines, q, i) && closed(lines, q, i2) && i < i2 < target(
                q.commands[i],
            ) implies target(q.commands[i2]) < target(q.commands[i]) by {
            assert(i < n && i2 < n);
            assert(closed(lines, p, i) && closed(lines, p, i2));
            assert(q.commands[i] == p.commands[i]);
            assert(q.commands[i2] == p.commands[i2]);
        }
        assert forall|k: int| 0 <= k < q.open.len() implies {
            let s = #[trigger] q.open[k] as int;
            s < n + 1 && opens(raw_line(lines, s)) && q.commands[s] == raw_line(lines, s)
        } by {
            if k < p.open.len() {
                assert(q.open[k] == p.open[k]);
            }
        }
        assert forall|k1: int, k2: int| 0 <= k1 < k2 < q.open.len() implies (#[trigger] q.open[k1])
            < (#[trigger] q.open[k2]) by {
            assert(q.open[k1] == p.open[k1]);
            if k2 < p.open.len() {
                assert(q.open[k2] == p.open[k2]);
            }
        }
    } else if closes(r) {
        let c = line->0;
        assert(p.open.len() > 0);
        let top = p.open.len() - 1;
        let start = p.open[top] as int;
        assert(p.open.last() == p.open[top]);
        let o = command_at(p.commands, start);
        assert(p.commands[start] == raw_line(lines, start));
        assert(o == raw_line(lines, start)->0);
        assert(q.open == p.open.drop_last());
        assert(q.commands == p.commands.update(start, Some(pointing(o, n as usize))).push(
            Some(closer(c, o, start as usize)),
        ));
        assert(!waits(q.open, start)) by {
            if waits(q.open, start) {
                let k = choose|k: int| 0 <= k < q.open.len() && #[trigger] q.open[k] == start;
                assert(q.open[k] == p.open[k]);
                assert(p.open[k] < p.open[top]);
            }
        }
        assert forall|i: int| 0 <= i < n && i != start implies #[trigger] waits(q.open, i) == waits(
            p.open,
            i,
        ) by {
            if waits(p.open, i) {
                let k = choose|k: int| 0 <= k < p.open.len() && #[trigger] p.open[k] == i;
                assert(k != top);
                assert(q.open[k] == i);
            }
            if waits(q.open, i) {
                let k = choose|k: int| 0 <= k < q.open.len() && #[trigger] q.open[k] == i;
                assert(p.open[k] == i);
            }
        }
        assert(paired(lines, q.commands, start, n));
        assert(target(q.commands[start]) == n);
        assert(target(q.commands[n]) == start);
        assert forall|i: int| 0 <= i < n + 1 implies #[trigger] settled(lines, q, i) by {
            if i < n && i != start {
                assert(settled(lines, p, i));
                assert(q.commands[i] == p.commands[i]);
                let t = target(p.commands[i]);
                if opens(raw_line(lines, i)) {
                    if !waits(p.open, i) {
                        assert(paired(lines, p.commands, i, t));
                        assert(t != start);
                        assert(q.commands[t] == p.commands[t]);
                    }
                } else if closes(raw_line(lines, i)) {
                    assert(paired(lines, p.commands, t, i));
                    assert(t != start) by {
                        if t == start {
                            assert(p.open[top] == start);
                            assert(waits(p.open, start));
                        }
                    }
                    assert(q.commands[t] == p.commands[t]);
                }
            }
        }
        assert forall|i: int, k: int|
            #![trigger closed(lines, q, i), q.open[k]]
            closed(lines, q, i) && 0 <= k < q.open.len() implies !(i < q.open[k] < target(
            q.commands[i],
        )) by {
            assert(q.open[k] == p.open[k]);
            if i == start {
                assert(p.open[k] < p.open[top]);
            } else {
                assert(i != n);
                assert(closed(lines, p, i));
                assert(q.commands[i] == p.commands[i]);
            }
        }
        assert forall|i: int, i2: int|
            #![trigger closed(lines, q, i), closed(lines, q, i2)]
            closed(lines, q, i) && closed(lines, q, i2) && i < i2 < target(
                q.commands[i],
            ) implies target(q.commands[i2]) < target(q.commands[i]) by {
            assert(i != n && i2 != n);
            if i == start {
                assert(closed(lines, p, i2));
                assert(settled(lines, p, i2));
                assert(q.commands[i2] == p.commands[i2]);
            } else if i2 == start {
                assert(closed(lines, p, i));
                assert(q.commands[i] == p.commands[i]);
                assert(p.open[top] == start);
            } else {
                assert(closed(lines, p, i) && closed(lines, p, i2));
                assert(q.commands[i] == p.commands[i]);
                assert(q.commands[i2] == p.commands[i2]);
            }
        }
        assert forall|k: int| 0 <= k < q.open.len() implies {
            let s = #[trigger] q.open[k] as int;
            s < n + 1 && opens(raw_line(lines, s)) && q.commands[s] == raw_line(lines, s)
        } by {
            assert(q.open[k] == p.open[k]);
            assert(p.open[k] < p.open[top]);
        }
        assert forall|k1: int, k2: int| 0 <= k1 < k2 < q.open.len() implies (#[trigger] q.open[k1])
            < (#[trigger] q.open[k2]) by {
            assert(q.open[k1] == p.open[k1]);
            assert(q.open[k2] == p.open[k2]);
        }
    } else {
        assert(q.open == p.open);
        assert(q.commands == p.commands.push(line));
        assert forall|i: int| 0 <= i < n + 1 implies #[trigger] settled(lines, q, i) by {
            if i < n {
                assert(settled(lines, p, i));
                assert(q.commands[i] == p.commands[i]);
                let t = target(p.commands[i]);
                if opens(raw_line(lines, i)) {
                } else if closes(raw_line(lines, i)) {
                    assert(0 <= t < n);
                }
            }
        }
        assert forall|i: int, k: int|
            #![trigger closed(lines, q, i), q.open[k]]
            closed(lines, q, i) && 0 <= k < q.open.len() implies !(i < q.open[k] < target(
            q.commands[i],
        )) by {
            assert(i != n);
            assert(closed(lines, p, i));
            assert(q.commands[i] == p.commands[i]);
        }
        assert forall|i: int, i2: int|
            #![trigger closed(lines, q, i), closed(lines, q, i2)]
            closed(lines, q, i) && closed(lines, q, i2) && i < i2 < target(
                q.commands[i],
            ) implies target(q.commands[i2]) < target(q.commands[i]) by {
            assert(i != n && i2 != n);
            assert(closed(lines, p, i) && closed(lines, p, i2));
            assert(q.commands[i] == p.commands[i]);
            assert(q.commands[i2] == p.commands[i2]);
        }
    }
}

proof fn lemma_pass_tied(lines: Seq<Seq<char>>, n: int)
    requires
        0 <= n <= lines.len(),
        lines.len() <= usize::MAX,
        pass_upto(lines, n) is Ok,
    ensures
        tied(lines, pass_upto(lines, n)->Ok_0, n),
    decreases n,
{
    if n > 0 {
        lemma_pass_tied(lines, n - 1);
        lemma_step_keeps_tied(lines, pass_upto(lines, n - 1)->Ok_0, n - 1);
    }
}

/// How many blocks are open after the first `n` lines: the openers among
/// them less the `end`s.
pub open spec fn depth(lines: Seq<Seq<char>>, n: int) -> int
    decreases n,
{
    if n <= 0 {
        0
    } else {
        depth(lines, n - 1) + (if opens(raw_line(lines, n - 1)) {
            1int
        } else if closes(raw_line(lines, n - 1)) {
            -1int
        } else {
            0int
        })
    }
}

/// No `end` among the first `n` lines comes without an open block.
pub open spec fn never_below(lines: Seq<Seq<char>>, n: int) -> bool {
    forall|m: int| 0 <= m <= n ==> #[trigger] depth(lines, m) >= 0
}

proof fn lemma_pass_counts(lines: Seq<Seq<char>>, n: int)
    requires
        0 <= n <= lines.len(),
        forall|i: int| 0 <= i < lines.len() ==> (#[trigger] line_command(lines[i])) is Ok,
    ensures
        match pass_upto(lines, n) {
            Ok(p) => p.open.len() == depth(lines, n) && never_below(lines, n),
            Err(e) => e == ParseError::UnexpectedEnd && !never_below(lines, n),
        },
    decreases n,
{
    if n > 0 {
        lemma_pass_counts(lines, n - 1);
        assert(line_command(lines[n - 1]) is Ok);
        match pass_upto(lines, n - 1) {
            Ok(p) => {
                assert forall|m: int| 0 <= m <= n - 1 implies #[trigger] depth(lines, m) >= 0 by {}
                match pass_upto(lines, n) {
                    Ok(q) => {
                        assert forall|m: int| 0 <= m <= n implies #[trigger] depth(lines, m)
                            >= 0 by {
                            if m < n {
                                assert(depth(lines, m) >= 0);
                            }
                        }
                    },
                    Err(e) => {
                        assert(depth(lines, n) < 0);
                    },
                }
            },
            Err(e) => {
                let m = choose|m: int| 0 <= m <= n - 1 && !(#[trigger] depth(lines, m) >= 0);
                assert(!(depth(lines, m) >= 0));
            },
        }
    }
}

/// In a program that parses, openers and `end`s are tied like brackets.
/// Every opener is tied to an `end` on a later line, and every `end` to an
/// opener on an earlier line: each carries the line of the other as its
/// last argument, and the `end` the opener's name after its own. Every other
/// line stands as it was written. And blocks nest: an opener inside a block
/// is closed inside it.
pub proof fn lemma_blocks_are_matched(code: Seq<char>)
    requires
        lines_of(code).len() <= usize::MAX,
        parse_of(code) is Ok,
    ensures
        ({
            let lines = lines_of(code);
            let cs = parse_of(code)->Ok_0;
            &&& cs.len() == lines.len()
            &&& forall|i: int|
                0 <= i < cs.len() && opens(#[trigger] raw_line(lines, i)) ==> paired(
                    lines,
                    cs,
                    i,
                    target(cs[i]),
                )
            &&& forall|j: int|
                0 <= j < cs.len() && closes(#[trigger] raw_line(lines, j)) ==> paired(
                    lines,
                    cs,
                    target(cs[j]),
                    j,
                )
            &&& forall|i: int|
                0 <= i < cs.len() && !opens(#[trigger] raw_line(lines, i)) && !closes(
                    raw_line(lines, i),
                ) ==> cs[i] == raw_line(lines, i)
            &&& forall|i: int, k: int|
                #![trigger raw_line(lines, i), raw_line(lines, k)]
                0 <= i < k < cs.len() && opens(raw_line(lines, i)) && opens(raw_line(lines, k))
                    && k < target(cs[i]) ==> target(cs[k]) < target(cs[i])
        }),
{
    let lines = lines_of(code);
    let n = lines.len() as int;
    lemma_pass_tied(lines, n);
    let p = pass_upto(lines, n)->Ok_0;
    let cs = p.commands;
    assert(p.open.len() == 0);
    assert forall|i: int| 0 <= i < cs.len() implies !waits(p.open, i) by {}
    assert forall|i: int| 0 <= i < cs.len() && opens(#[trigger] raw_line(lines, i)) implies paired(
        lines,
        cs,
        i,
        target(cs[i]),
    ) by {
        assert(settled(lines, p, i));
    }
    assert forall|j: int| 0 <= j < cs.len() && closes(#[trigger] raw_line(lines, j)) implies paired(
        lines,
        cs,
        target(cs[j]),
        j,
    ) by {
        assert(settled(lines, p, j));
    }
    assert forall|i: int|
        0 <= i < cs.len() && !opens(#[trigger] raw_line(lines, i)) && !closes(
            raw_line(lines, i),
        ) implies cs[i] == raw_line(lines, i) by {
        assert(settled(lines, p, i));
    }
    assert forall|i: int, k: int|
        #![trigger raw_line(lines, i), raw_line(lines, k)]
        0 <= i < k < cs.len() && opens(raw_line(lines, i)) && opens(raw_line(lines, k)) && k
            < target(cs[i]) implies target(cs[k]) < target(cs[i]) by {
        assert(closed(lines, p, i));
        assert(closed(lines, p, k));
    }
}

/// A program whose every line is well formed parses exactly when its
/// openers and `end`s balance: no `end` comes without an open block, and no
/// block is open at the end. An `end` too many is reported as an unexpected
/// `end`, an `end` too few as an unclosed block.
pub proof fn lemma_blocks_balance(code: Seq<char>)
    requires
        forall|i: int|
            0 <= i < lines_of(code).len() ==> (#[trigger] line_command(lines_of(code)[i])) is Ok,
    ensures
        ({
            let lines = lines_of(code);
            let n = lines.len() as int;
            match parse_of(code) {
                Ok(_) => never_below(lines, n) && depth(lines, n) == 0,
                Err(ParseError::UnexpectedEnd) => !never_below(lines, n),
                Err(ParseError::UnclosedBlock) => never_below(lines, n) && depth(lines, n) > 0,
                Err(ParseError::Lined(_, _)) => false,
            }
        }),
{
    let lines = lines_of(code);
    lemma_pass_counts(lines, lines.len() as int);
}

/// A malformed line is reported with its own number and its own error: the
/// error of a program is that of line `n` exactly when line `n`, taken by
/// itself, has that error, and the pass has come as far as line `n`.
pub proof fn lemma_syntax_errors_are_local(code: Seq<char>, n: usize, x: crate::parse::ParseErrorLine)
    requires
        lines_of(code).len() <= usize::MAX,
    ensures
        ({
            let lines = lines_of(code);
            parse_of(code) == Err::<Seq<Option<CommandView>>, ParseError>(ParseError::Lined(n, x))
                <==> n < lines.len() && line_command(lines[n as int]) == Err::<
                Option<CommandView>,
                crate::parse::ParseErrorLine,
            >(x) && pass_upto(lines, n as int) is Ok
        }),
{
    let lines = lines_of(code);
    let total = lines.len() as int;
    lemma_first_error(lines, total, n, x);
    if n < lines.len() && pass_upto(lines, n as int) is Ok && line_command(lines[n as int]) == Err::<
        Option<CommandView>,
        crate::parse::ParseErrorLine,
    >(x) {
        assert(pass_upto(lines, n + 1) == Err::<Pass, ParseError>(ParseError::Lined(n, x)));
        crate::parse::lemma_pass_stays_failed(lines, n + 1, total);
    }
}

proof fn lemma_first_error(lines: Seq<Seq<char>>, m: int, n: usize, x: crate::parse::ParseErrorLine)
    requires
        0 <= m <= lines.len(),
        lines.len() <= usize::MAX,
    ensures
        pass_upto(lines, m) == Err::<Pass, ParseError>(ParseError::Lined(n, x)) ==> n < m
            && line_command(lines[n as int]) == Err::<
            Option<CommandView>,
            crate::parse::ParseErrorLine,
        >(x) && pass_upto(lines, n as int) is Ok,
    decreases m,
{
    if m > 0 {
        lemma_first_error(lines, m - 1, n, x);
    }
}

/// What the parser says of a line depends on that line alone: two programs
/// that agree on their first lines up to and with line `n`, and of which
/// one fails at line `n`, fail alike.
pub proof fn lemma_other_lines_do_not_matter(a: Seq<char>, b: Seq<char>, n: usize)
    requires
        lines_of(a).len() <= usize::MAX,
        lines_of(b).len() <= usize::MAX,
        n < lines_of(a).len(),
        n < lines_of(b).len(),
        forall|i: int| 0 <= i <= n ==> lines_of(a)[i] == lines_of(b)[i],
        parse_of(a) matches Err(ParseError::Lined(k, _)) && k == n,
    ensures
        parse_of(b) == parse_of(a),
{
    let la = lines_of(a);
    let lb = lines_of(b);
    let x = parse_of(a)->Err_0->Lined_1;
    lemma_syntax_errors_are_local(a, n, x);
    crate::parse::lemma_pass_is_local(la, lb, n as int);
    lemma_syntax_errors_are_local(b, n, x);
}

} // verus!
