use vurlrs::builtins::{BinaryOp, Request, Stream, UnaryOp};
use vurlrs::number::Num;
use vurlrs::parse::parse;
use vurlrs::run::{execute, Action, Reply, State};

fn num(x: f64) -> Num {
    Num::new(x.to_bits(), format!("{}", x))
}

fn val(n: &Num) -> f64 {
    f64::from_bits(n.bits)
}

struct Console {
    out: String,
    err: String,
    input: Vec<String>,
}

fn perform(request: Request, console: &mut Console) -> Reply {
    match request {
        Request::Parse(t) => match t.parse::<f64>() {
            Ok(x) => Reply::Number(num(x)),
            Err(_) => Reply::NotANumber,
        },
        Request::Unary(op, a) => {
            let x = val(&a);
            Reply::Number(num(match op {
                UnaryOp::Floor => x.floor(),
                UnaryOp::Round => x.round(),
                UnaryOp::Sqrt => x.sqrt(),
                UnaryOp::Sin => x.sin(),
                UnaryOp::Cos => x.cos(),
                UnaryOp::Tan => x.tan(),
                UnaryOp::Asin => x.asin(),
                UnaryOp::Acos => x.acos(),
                UnaryOp::Atan => x.atan(),
                UnaryOp::Ln => x.ln(),
                UnaryOp::Exp => x.exp(),
            }))
        }
        Request::Binary(op, a, b) => {
            let (x, y) = (val(&a), val(&b));
            Reply::Number(num(match op {
                BinaryOp::Add => x + y,
                BinaryOp::Sub => x - y,
                BinaryOp::Mul => x * y,
                BinaryOp::Div => x / y,
                BinaryOp::Rem => x % y,
                BinaryOp::Pow => x.powf(y),
            }))
        }
        Request::Convert(n) => Reply::Number(num(n as f64)),
        Request::Time => Reply::Number(num(1234.5)),
        Request::Rand => Reply::Number(num(0.25)),
        Request::Write(stream, text) => {
            match stream {
                Stream::Out => console.out.push_str(&text),
                Stream::Error => console.err.push_str(&text),
            }
            Reply::Done
        }
        Request::ReadLine => {
            if console.input.is_empty() {
                Reply::Failure(String::from("end of input"))
            } else {
                Reply::Line(console.input.remove(0))
            }
        }
    }
}

/// Runs a program to its end; gives what it wrote and, if it failed, the
/// message of the error.
fn run_with(code: &str, input: &[&str]) -> (String, String, Option<String>) {
    let program = parse(code).expect("the program parses");
    let mut state = State::new(&program);
    let mut console = Console {
        out: String::new(),
        err: String::new(),
        input: input.iter().map(|s| s.to_string()).collect(),
    };
    let mut steps = 0;
    let mut action = execute(&mut state, 1000);
    loop {
        steps += 1;
        assert!(steps < 100_000, "the program runs too long");
        action = match action {
            Action::Continue => execute(&mut state, 1000),
            Action::Ask(request) => {
                let reply = perform(request, &mut console);
                match state.answer(reply) {
                    Action::Continue => execute(&mut state, 1000),
                    other => other,
                }
            }
            Action::Finished => return (console.out, console.err, None),
            Action::Failed(e) => {
                let message = e.message(&state.memory().heap);
                return (console.out, console.err, Some(message));
            }
        };
    }
}

fn run(code: &str) -> (String, Option<String>) {
    let (out, _, failure) = run_with(code, &[]);
    (out, failure)
}

fn output(code: &str) -> String {
    let (out, failure) = run(code);
    assert_eq!(failure, None);
    out
}

fn failure(code: &str) -> String {
    run(code).1.expect("the program fails")
}

#[test]
fn prints_a_sum() {
    assert_eq!(output("print (add 1 2)"), "3\n");
}

#[test]
fn sub_five_three_is_two() {
    assert_eq!(output("print (sub 5 3)"), "2\n");
}

#[test]
fn sub_with_one_argument_names_two() {
    assert_eq!(
        failure("sub 1"),
        "error (line 0, command sub):\nexpected 2 arguments"
    );
}

#[test]
fn sub_with_three_arguments_names_two() {
    assert_eq!(
        failure("sub 1 2 3"),
        "error (line 0, command sub):\nexpected 2 arguments"
    );
}

#[test]
fn if_zero_skips_its_body() {
    assert_eq!(output("if 0\nprint in\nend\nprint out"), "out\n");
}

#[test]
fn if_one_runs_its_body_once() {
    assert_eq!(output("if 1\nprint in\nend\nprint out"), "in\nout\n");
}

#[test]
fn while_zero_runs_no_time() {
    assert_eq!(output("while 0\nprint in\nend\nprint out"), "out\n");
}

#[test]
fn while_checks_again_after_each_pass() {
    let code = "set i 0\nwhile (lt [i] 3)\nprint [i]\nset i (add [i] 1)\nend\nprint done";
    assert_eq!(output(code), "0\n1\n2\ndone\n");
}

#[test]
fn function_with_two_parameters_adds() {
    let code = "_cmd f .x .y\nend (add [.x] [.y])\nprint (f 3 4)";
    assert_eq!(output(code), "7\n");
}

#[test]
fn function_called_with_one_argument_names_two() {
    let code = "_cmd f .x .y\nend (add [.x] [.y])\nprint (f 3)";
    assert_eq!(
        failure(code),
        "error (line 2, command f):\nexpected 2 arguments"
    );
}

#[test]
fn recursion_unwinds_depth_first() {
    let code = "_cmd down .n\nprint in [.n]\nif (gt [.n] 0)\ndown (sub [.n] 1)\nend\nprint out [.n]\nend\ndown 2";
    assert_eq!(output(code), "in 2\nin 1\nin 0\nout 0\nout 1\nout 2\n");
}

#[test]
fn factorial_by_recursion() {
    let code = "_cmd fact .n\nif (lte [.n] 1)\n_return 1\nend\nend (mul [.n] (fact (sub [.n] 1)))\nprint (fact 5)";
    assert_eq!(output(code), "120\n");
}

#[test]
fn list_is_shared_between_names() {
    let code = "set l (list 1 2)\nset m [l]\npush [m] 3\nprint [l]";
    assert_eq!(output(code), "(1,2,3)\n");
}

#[test]
fn clone_is_independent() {
    let code = "set l (list 1 (list 2 3))\nset m (_clone [l])\npush [m] 4\npush (index [m] 2) 5\nprint [l]\nprint [m]";
    assert_eq!(output(code), "(1,(2,3))\n(1,(2,3,5),4)\n");
}

#[test]
fn index_one_is_the_first_item() {
    assert_eq!(output("print (index (list a b c) 1)"), "a\n");
}

#[test]
fn index_zero_fails() {
    assert_eq!(
        failure("index (list a b c) 0"),
        "error (line 0, command index):\nvurl is one-indexed, sadly"
    );
}

#[test]
fn index_past_the_end_fails() {
    assert_eq!(
        failure("index (list a b c) 4"),
        "error (line 0, command index):\ntried to use index 3 of a list of 3 items"
    );
}

#[test]
fn local_write_is_gone_after_the_call() {
    let code = "set x 1\n_cmd f ...\nset .x 2\nset y 3\nend [.x]\nprint (f)\nprint [x] [y]\nprint [.x]";
    let (out, failure) = run(code);
    assert_eq!(out, "2\n1 3\n");
    assert_eq!(
        failure,
        Some(String::from(
            "error (line 7, command n/a):\nvariable [.x] is undefined"
        ))
    );
}

#[test]
fn eq_compares_lists_item_by_item() {
    let code = "print (eq (list 1 (list 2 3)) (list 1 (list 2 3)))\nprint (eq (list 1 2) (list 1 3))\nprint (eq (list 1 2) (list 1 2 3))";
    assert_eq!(output(code), "1\n0\n0\n");
}

#[test]
fn eq_compares_numbers_by_value_and_the_rest_by_text() {
    let code = "print (eq 1 1.0)\nprint (eq \"1\" \"1.0\")\nprint (eq 1 \"1\")\nprint (eq abc abc)";
    assert_eq!(output(code), "1\n0\n1\n1\n");
}

#[test]
fn add_folds_any_number_of_arguments() {
    assert_eq!(output("print (add)\nprint (add 5)\nprint (add 1 2 3)"), "0\n5\n6\n");
}

#[test]
fn mul_folds_any_number_of_arguments() {
    assert_eq!(output("print (mul)\nprint (mul 7)\nprint (mul 2 3 4)"), "1\n7\n24\n");
}

#[test]
fn text_that_reads_as_a_number_counts_as_one() {
    assert_eq!(output("print (add \"1.5\" 2)\nprint (sub \"10\" \"4\")"), "3.5\n6\n");
}

#[test]
fn text_that_is_no_number_fails_arithmetic() {
    assert_eq!(
        failure("add 1 abc 3"),
        "error (line 0, command add):\nabc is not a number"
    );
    assert_eq!(
        failure("sub (list 1) 3"),
        "error (line 0, command sub):\n(1) is not a number"
    );
}

#[test]
fn the_first_bad_argument_is_named() {
    assert_eq!(
        failure("add 1 \"x\" (list)"),
        "error (line 0, command add):\nx is not a number"
    );
    assert_eq!(
        failure("add 1 (list) \"x\""),
        "error (line 0, command add):\n() is not a number"
    );
}

#[test]
fn division_remainder_and_power() {
    let code = "print (div 1 2)\nprint (div 1 0)\nprint (mod 7 3)\nprint (_pow 2 10)";
    assert_eq!(output(code), "0.5\ninf\n1\n1024\n");
}

#[test]
fn functions_of_one_number() {
    let code = "print (_floor 2.7)\nprint (_round 2.5)\nprint (_sqrt 9)\nprint (_sin 0)\nprint (_cos 0)\nprint (_tan 0)\nprint (_asin 0)\nprint (_acos 1)\nprint (_atan 0)\nprint (_ln 1)\nprint (_exp 0)";
    assert_eq!(output(code), "2\n3\n3\n0\n1\n0\n0\n0\n0\n0\n1\n");
}

#[test]
fn functions_of_one_number_take_one_argument() {
    assert_eq!(
        failure("_sqrt 1 2"),
        "error (line 0, command _sqrt):\nexpected 1 argument"
    );
}

#[test]
fn len_counts_items_and_characters() {
    let code = "print (len abc)\nprint (len (list 1 2))\nprint (len 12.5)\nprint (len \"\")\nprint (len \"h\u{e9}llo\")";
    assert_eq!(output(code), "3\n2\n4\n0\n5\n");
}

#[test]
fn comparisons_of_numbers() {
    let code = "print (lt 1 2) (lt 2 1) (lt 1 1)\nprint (gt 1 2) (gt 2 1) (gt 1 1)\nprint (lte 1 2) (lte 2 1) (lte 1 1)\nprint (gte 1 2) (gte 2 1) (gte 1 1)";
    assert_eq!(output(code), "1 0 0\n0 1 0\n1 0 1\n0 1 1\n");
}

#[test]
fn comparisons_with_negative_numbers_and_zeros() {
    let code = "print (lt -2 -1) (lt -1 -2) (lt -1 1) (lt 1 -1)\nprint (lt -0 0) (lte -0 0) (eq -0 0) (gte 0 -0)\nprint (lt -0.5 0.25) (gt -3 -3.5)";
    assert_eq!(output(code), "1 0 1 0\n0 1 1 1\n1 1\n");
}

#[test]
fn nan_compares_with_nothing() {
    let code = "print (lt nan 1) (gt nan 1) (lte nan nan) (eq nan nan) (not nan)";
    assert_eq!(output(code), "0 0 0 0 0\n");
}

#[test]
fn not_turns_zero_into_one() {
    assert_eq!(output("print (not 0) (not 5) (not -0) (not \"0\")"), "1 0 1 1\n");
}

#[test]
fn or_stops_at_the_first_nonzero() {
    assert_eq!(output("print (or) (or 0 0) (or 0 3) (or 1 x)"), "0 0 1 1\n");
    assert_eq!(
        failure("or 0 x"),
        "error (line 0, command or):\nx is not a number"
    );
}

#[test]
fn and_stops_at_the_first_zero() {
    assert_eq!(output("print (and) (and 1 2) (and 1 0) (and 0 x)"), "1 1 0 0\n");
    assert_eq!(
        failure("and 1 x"),
        "error (line 0, command and):\nx is not a number"
    );
}

#[test]
fn print_separates_with_spaces_and_ends_the_line() {
    assert_eq!(output("print a b c\nprint\nprint d"), "a b c\nd\n");
}

#[test]
fn printraw_writes_as_it_stands() {
    assert_eq!(output("_printraw a b\n_printraw c"), "abc");
}

#[test]
fn printerr_writes_to_the_other_stream() {
    let (out, err, failure) = run_with("_printerr a b\n_printerrraw c d\nprint e", &[]);
    assert_eq!(out, "e\n");
    assert_eq!(err, "a b\ncd");
    assert_eq!(failure, None);
}

#[test]
fn input_reads_a_line() {
    let (out, _, failure) = run_with("set a (input)\nprint (join < [a] >)", &["hello\n"]);
    assert_eq!(out, "<hello\n>\n");
    assert_eq!(failure, None);
}

#[test]
fn input_that_fails_is_an_io_error() {
    let (_, _, failure) = run_with("input", &[]);
    assert_eq!(
        failure,
        Some(String::from(
            "error (line 0, command input):\nio error: end of input"
        ))
    );
}

#[test]
fn input_takes_no_argument() {
    assert_eq!(
        failure("input 1"),
        "error (line 0, command input):\nexpected 0 arguments"
    );
}

#[test]
fn substr_counts_from_one_and_takes_both_ends() {
    let code = "print (substr hello 2 4)\nprint (substr hello 1 1)\nprint (substr hello 2 100)\nprint (join < (substr hello 4 2) >)\nprint (join < (substr hello 9 12) >)";
    assert_eq!(output(code), "ell\nh\nello\n<>\n<>\n");
}

#[test]
fn substr_rejects_position_zero() {
    assert_eq!(
        failure("substr hello 0 2"),
        "error (line 0, command substr):\nvurl is one-indexed, sadly"
    );
    assert_eq!(
        failure("substr hello 1 0"),
        "error (line 0, command substr):\nvurl is one-indexed, sadly"
    );
}

#[test]
fn chr_gives_the_character_of_a_code_point() {
    assert_eq!(output("print (_chr 65) (_chr 233.9) (_chr 128512)"), "A \u{e9} \u{1f600}\n");
}

#[test]
fn chr_rejects_what_is_no_scalar_value() {
    assert_eq!(
        failure("_chr 55296"),
        "error (line 0, command _chr):\n55296 is not a valid unicode codepoint"
    );
    assert_eq!(
        failure("_chr 1114112"),
        "error (line 0, command _chr):\n1114112 is not a valid unicode codepoint"
    );
    assert_eq!(
        failure("_chr 1e30"),
        "error (line 0, command _chr):\n4294967295 is not a valid unicode codepoint"
    );
}

#[test]
fn ord_gives_the_code_point_of_one_character() {
    assert_eq!(output("print (_ord A) (_ord \"\u{e9}\") (_ord 7)"), "65 233 55\n");
}

#[test]
fn ord_rejects_longer_and_empty_text() {
    assert_eq!(
        failure("_ord ab"),
        "error (line 0, command _ord):\nstring \"ab\" must be one character long"
    );
    assert_eq!(
        failure("_ord \"\""),
        "error (line 0, command _ord):\nstring \"\" must be one character long"
    );
}

#[test]
fn join_puts_texts_together() {
    assert_eq!(output("print (join a b 1 (list 2 3))\nprint (join < (join) >)"), "ab1(2,3)\n<>\n");
}

#[test]
fn lists_print_nested() {
    assert_eq!(output("print (list) (list 1) (list a (list b (list)) c)"), "() (1) (a,(b,()),c)\n");
}

#[test]
fn index_takes_the_floor_of_its_position() {
    assert_eq!(output("print (index (list a b c) 2.9) (index (list a b c) \"3\")"), "b c\n");
}

#[test]
fn index_below_one_is_position_zero() {
    assert_eq!(
        failure("index (list a b c) -1"),
        "error (line 0, command index):\nvurl is one-indexed, sadly"
    );
    assert_eq!(
        failure("index (list a b c) 0.9"),
        "error (line 0, command index):\nvurl is one-indexed, sadly"
    );
    assert_eq!(
        failure("index (list a b c) nan"),
        "error (line 0, command index):\nvurl is one-indexed, sadly"
    );
}

#[test]
fn index_on_what_is_no_list_fails() {
    assert_eq!(
        failure("index abc 1"),
        "error (line 0, command index):\nabc is not a list"
    );
    assert_eq!(
        failure("index 5 x"),
        "error (line 0, command index):\n5 is not a list"
    );
}

#[test]
fn push_and_pop_work_at_the_end() {
    let code = "set l (list 1 2)\npush [l] 3\nprint [l]\nprint (pop [l])\nprint [l]";
    assert_eq!(output(code), "(1,2,3)\n3\n(1,2)\n");
}

#[test]
fn pop_from_an_empty_list_fails() {
    assert_eq!(
        failure("pop (list)"),
        "error (line 0, command pop):\ncannot pop from an empty list"
    );
}

#[test]
fn insert_puts_before_the_position() {
    let code = "set l (list a b c)\ninsert [l] 1 x\ninsert [l] 3 y\ninsert [l] 100 z\nprint [l]";
    assert_eq!(output(code), "(x,a,y,b,c,z)\n");
}

#[test]
fn remove_takes_the_item_out() {
    let code = "set l (list a b c)\nprint (remove [l] 2)\nprint [l]";
    assert_eq!(output(code), "b\n(a,c)\n");
}

#[test]
fn remove_past_the_end_fails() {
    assert_eq!(
        failure("remove (list a b) 3"),
        "error (line 0, command remove):\ntried to use index 2 of a list of 2 items"
    );
}

#[test]
fn replace_overwrites_an_item() {
    let code = "set l (list a b c)\nreplace [l] 2 x\nprint [l]";
    assert_eq!(output(code), "(a,x,c)\n");
}

#[test]
fn replace_past_the_end_fails() {
    assert_eq!(
        failure("replace (list a b) 5 x"),
        "error (line 0, command replace):\ntried to use index 4 of a list of 2 items"
    );
}

#[test]
fn a_position_too_large_saturates() {
    assert_eq!(
        failure("index (list a b c) 1e30"),
        format!(
            "error (line 0, command index):\ntried to use index {} of a list of 3 items",
            usize::MAX - 1
        )
    );
}

#[test]
fn islist_tells_lists_from_the_rest() {
    assert_eq!(output("print (_islist (list)) (_islist abc) (_islist 1)"), "1 0 0\n");
}

#[test]
fn clone_of_what_is_no_list_is_the_value() {
    assert_eq!(output("print (_clone abc) (_clone 5)"), "abc 5\n");
}

#[test]
fn a_list_inside_a_list_is_shared_too() {
    let code = "set inner (list 1)\nset outer (list [inner])\npush [inner] 2\nprint [outer]";
    assert_eq!(output(code), "((1,2))\n");
}

#[test]
fn a_list_that_holds_itself_is_too_deep_to_print() {
    let code = "set l (list)\npush [l] [l]\nprint [l]";
    assert_eq!(
        failure(code),
        "error (line 2, command print):\nlists are nested too deep"
    );
}

#[test]
fn a_list_that_holds_itself_is_too_deep_to_compare_and_to_copy() {
    let code = "set l (list)\npush [l] [l]\neq [l] [l]";
    assert_eq!(
        failure(code),
        "error (line 2, command eq):\nlists are nested too deep"
    );
    let code = "set l (list)\npush [l] [l]\n_clone [l]";
    assert_eq!(
        failure(code),
        "error (line 2, command _clone):\nlists are nested too deep"
    );
}

#[test]
fn set_and_get_by_name() {
    let code = "set x 5\nprint (_get x) [x]\nset x 6\nprint [x]";
    assert_eq!(output(code), "5 5\n6\n");
}

#[test]
fn an_unknown_variable_is_a_name_error() {
    assert_eq!(
        failure("print [x]"),
        "error (line 0, command n/a):\nvariable [x] is undefined"
    );
    assert_eq!(
        failure("_get x"),
        "error (line 0, command _get):\nvariable [x] is undefined"
    );
}

#[test]
fn globals_and_locals_are_listed_by_name() {
    let code = "set a 1\nset b 2\nset .c 3\nset a 4\nprint (_globals) (_locals)";
    assert_eq!(output(code), "(a,b) (.c)\n");
}

#[test]
fn the_arguments_of_a_call_are_a_local_list() {
    let code = "_cmd f ...\nend (len [.args])\nprint (f) (f a) (f a b c)";
    assert_eq!(output(code), "0 1 3\n");
}

#[test]
fn a_parameter_and_a_global_of_its_bare_name_are_two_variables() {
    let code = "set x 1\n_cmd f .x\nset x 5\nend (join [.x] [x])\nprint (f 2) [x]";
    assert_eq!(output(code), "25 5\n");
}

#[test]
fn a_name_without_the_dot_is_looked_up_among_the_globals_only() {
    let code = "_cmd f x\nend [x]\nprint (f 2)";
    assert_eq!(
        failure(code),
        "error (line 2, command f):\nerror (line 1, command n/a):\nvariable [x] is undefined"
    );
    let code = "set x 1\n_cmd f x\nend [x]\nprint (f 2)";
    assert_eq!(output(code), "1\n");
}

#[test]
fn a_name_with_the_dot_is_looked_up_among_the_locals_only() {
    let code = "set .x 1\n_cmd f ...\nend [.x]\nprint [.x]\nprint (f)";
    let (out, failure) = run(code);
    assert_eq!(out, "1\n");
    assert_eq!(
        failure,
        Some(String::from(
            "error (line 4, command f):\nerror (line 2, command n/a):\nvariable [.x] is undefined"
        ))
    );
}

#[test]
fn what_set_writes_a_reference_reads() {
    let code = "_cmd f .x\nset x 9\nset .x 8\nend (join [x] [.x] (_get x) (_get .x))\nprint (f 1)";
    assert_eq!(output(code), "9898\n");
}

#[test]
fn a_global_write_inside_a_call_stays() {
    let code = "_cmd f ...\nset g 7\nend\nf\nprint [g]";
    assert_eq!(output(code), "7\n");
}

#[test]
fn a_function_without_a_value_returns_nan() {
    let code = "_cmd f ...\nend\nprint (f)";
    assert_eq!(output(code), "NaN\n");
}

#[test]
fn func_is_another_word_for_cmd() {
    let code = "_func f .x\nend (mul [.x] 2)\nprint (f 4)";
    assert_eq!(output(code), "8\n");
}

#[test]
fn a_header_needs_a_name() {
    assert_eq!(
        failure("_cmd\nend"),
        "error (line 0, command _cmd):\nexpected 1 argument"
    );
}

#[test]
fn a_header_without_parameters_takes_any_arguments() {
    let code = "_cmd f\nend (len [.args])\nprint (f) (f a b)";
    assert_eq!(output(code), "0 2\n");
}

#[test]
fn a_function_cannot_be_defined_twice() {
    let code = "_cmd f ...\nend\n_cmd f ...\nend";
    assert_eq!(
        failure(code),
        "error (line 2, command _cmd):\nfunction f is already defined"
    );
    let code = "define f\nend\ndefine f\nend";
    assert_eq!(
        failure(code),
        "error (line 2, command define):\nfunction f is already defined"
    );
}

#[test]
fn define_and_call() {
    let code = "define greet\nprint hello [.args]\nend 5\nprint (call greet a b)";
    assert_eq!(output(code), "hello (a,b)\n5\n");
}

#[test]
fn a_defined_block_is_not_a_command() {
    let code = "define greet\nend\ngreet";
    assert_eq!(
        failure(code),
        "error (line 2, command greet):\ncommand not implemented"
    );
}

#[test]
fn call_needs_a_name() {
    assert_eq!(
        failure("call"),
        "error (line 0, command call):\nexpected 1 argument"
    );
    assert_eq!(
        failure("call nosuch"),
        "error (line 0, command call):\ncommand not implemented"
    );
}

#[test]
fn apply_runs_a_command_by_name() {
    let code = "print (_apply add (list 1 2 3))\n_cmd f .x .y\nend (sub [.x] [.y])\nprint (_apply f (list 5 3))";
    assert_eq!(output(code), "6\n2\n");
}

#[test]
fn apply_needs_a_list() {
    assert_eq!(
        failure("_apply add 5"),
        "error (line 0, command _apply):\n5 is not a list"
    );
}

#[test]
fn return_leaves_the_function_early() {
    let code = "_cmd f .x\nif [.x]\n_return yes\nend\nend no\nprint (f 1) (f 0)";
    assert_eq!(output(code), "yes no\n");
}

#[test]
fn return_from_inside_a_command_leaves_the_function() {
    let code = "_cmd f ...\nprint (_return 5)\nend 6\nprint (f)";
    assert_eq!(output(code), "5\n");
}

#[test]
fn return_outside_a_function_fails() {
    assert_eq!(
        failure("_return 5"),
        "error (line 0, command _return):\nvalue 5 returned outside function"
    );
    assert_eq!(
        failure("_return 1 2"),
        "error (line 0, command _return):\nexpected 1 argument"
    );
}

#[test]
fn an_error_inside_a_call_is_wrapped_by_each_caller() {
    let code = "_cmd inner ...\npop (list)\nend\n_cmd outer ...\ninner\nend\nouter";
    assert_eq!(
        failure(code),
        "error (line 6, command outer):\nerror (line 4, command inner):\nerror (line 1, command pop):\ncannot pop from an empty list"
    );
}

#[test]
fn an_unknown_command_is_not_implemented() {
    assert_eq!(
        failure("nosuch 1 2"),
        "error (line 0, command nosuch):\ncommand not implemented"
    );
}

#[test]
fn a_block_command_inside_a_command_fails() {
    assert_eq!(
        failure("print (if 1)"),
        "error (line 0, command if):\na block command must start its line"
    );
    assert_eq!(
        failure("print (end)"),
        "error (line 0, command end):\na block command must start its line"
    );
}

#[test]
fn the_program_can_raise_an_error() {
    assert_eq!(failure("_error boom"), "error (line 0, command _error):\nboom");
}

#[test]
fn an_error_ends_the_run_and_keeps_what_was_done() {
    let (out, failure) = run("print before\nset x (list 1)\npush [x] (pop (list))\nprint after");
    assert_eq!(out, "before\n");
    assert_eq!(
        failure,
        Some(String::from(
            "error (line 2, command pop):\ncannot pop from an empty list"
        ))
    );
}

#[test]
fn arguments_are_evaluated_from_left_to_right() {
    let code = "set l (list)\nprint (push [l] a) (push [l] b) [l]";
    assert_eq!(output(code), "NaN NaN (a,b)\n");
}

#[test]
fn time_and_rand_come_from_the_host() {
    assert_eq!(output("print (_time) (_rand)"), "1234.5 0.25\n");
    assert_eq!(
        failure("_time 1"),
        "error (line 0, command _time):\nexpected 0 arguments"
    );
}

#[test]
fn random_stays_in_its_range() {
    assert_eq!(output("print (_random 3 3) (_random -2.5 -3)"), "3 -3\n");
    let code = "set i 0\nwhile (lt [i] 50)\nset r (_random 1 6)\nif (or (lt [r] 1) (gt [r] 6))\n_error out\nend\nset i (add [i] 1)\nend\nprint ok";
    assert_eq!(output(code), "ok\n");
}

#[test]
fn random_draws_more_than_one_number() {
    let code = "set seen (list)\nset i 0\nwhile (lt [i] 200)\nset r (_random 1 1000000)\nif (not (eq [r] (index (list [r]) 1)))\n_error odd\nend\nif (eq (len [seen]) 0)\npush [seen] [r]\nend\nif (not (eq [r] (index [seen] 1)))\nset differs 1\nend\nset i (add [i] 1)\nend\nprint [differs]";
    assert_eq!(output(code), "1\n");
}

#[test]
fn random_from_an_empty_range_fails() {
    assert_eq!(
        failure("_random 5 1"),
        "error (line 0, command _random):\ncannot draw from an empty range"
    );
}

#[test]
fn nested_blocks_run_in_order() {
    let code = "set i 0\nwhile (lt [i] 3)\nset j 0\nwhile (lt [j] 2)\nif (eq [i] [j])\nprint same [i]\nend\nset j (add [j] 1)\nend\nset i (add [i] 1)\nend";
    assert_eq!(output(code), "same 0\nsame 1\n");
}

#[test]
fn a_while_on_the_first_line_loops() {
    let code = "while (lt (len (_globals)) 1)\nset x 1\nend\nprint [x]";
    assert_eq!(output(code), "1\n");
}

#[test]
fn blank_lines_and_comments_keep_their_line_numbers() {
    let code = "# a comment\n\n   \nprint a\n  # another\npop (list)";
    let (out, failure) = run(code);
    assert_eq!(out, "a\n");
    assert_eq!(
        failure,
        Some(String::from(
            "error (line 5, command pop):\ncannot pop from an empty list"
        ))
    );
}

#[test]
fn numerals_are_read_by_the_host() {
    let code = "print 1e3 .5 +3 5. -0 inf -inf NaN 007 1.50";
    assert_eq!(output(code), "1000 0.5 3 5 -0 inf -inf NaN 7 1.5\n");
}

#[test]
fn what_is_no_numeral_is_text() {
    let code = "print 1_000 0x10 e5 1e . + - 1.2.3 --1\nprint (_islist 1e) (eq 1e5 100000) (eq \"1e5\" 100000)";
    assert_eq!(output(code), "1_000 0x10 e5 1e . + - 1.2.3 --1\n0 1 0\n");
}

#[test]
fn a_condition_that_is_text_is_read_as_a_number() {
    assert_eq!(output("if \"0\"\nprint in\nend\nif \"2\"\nprint two\nend"), "two\n");
    assert_eq!(
        failure("if abc\nend"),
        "error (line 0, command if):\nabc is not a number"
    );
}

#[test]
fn a_condition_needs_one_argument() {
    assert_eq!(
        failure("if\nend"),
        "error (line 0, command if):\nexpected 1 argument"
    );
    assert_eq!(
        failure("while 1 2\nend"),
        "error (line 0, command while):\nexpected 1 argument"
    );
}

#[test]
fn end_of_a_condition_takes_no_argument() {
    assert_eq!(
        failure("if 1\nend 5"),
        "error (line 1, command end if):\nexpected 0 arguments"
    );
}

#[test]
fn the_machine_can_be_run_step_by_step() {
    let program = parse("set x 1\nprint [x]").expect("the program parses");
    let mut state = State::new(&program);
    assert_eq!(state.depth(), 1);
    let mut asked = 0;
    let mut steps = 0;
    loop {
        steps += 1;
        assert!(steps < 100);
        match state.step() {
            Action::Continue => {}
            Action::Ask(request) => {
                asked += 1;
                let mut console = Console {
                    out: String::new(),
                    err: String::new(),
                    input: Vec::new(),
                };
                let reply = perform(request, &mut console);
                assert!(matches!(state.answer(reply), Action::Continue));
            }
            Action::Finished => break,
            Action::Failed(_) => panic!("the program fails"),
        }
    }
    assert_eq!(asked, 2);
    assert!(matches!(state.step(), Action::Finished));
}

#[test]
fn an_open_request_is_asked_again() {
    let program = parse("print a").expect("the program parses");
    let mut state = State::new(&program);
    let first = execute(&mut state, 100);
    assert!(matches!(first, Action::Ask(Request::Write(Stream::Out, _))));
    assert!(matches!(state.step(), Action::Ask(Request::Write(Stream::Out, _))));
    assert!(matches!(
        state.answer(Reply::NotANumber),
        Action::Ask(Request::Write(Stream::Out, _))
    ));
    assert!(matches!(state.answer(Reply::Done), Action::Continue));
    assert!(matches!(state.answer(Reply::Done), Action::Continue));
    assert!(matches!(execute(&mut state, 100), Action::Finished));
}

#[test]
fn a_spent_budget_pauses_the_run() {
    let program = parse("set l (list a b c)").expect("the program parses");
    let mut state = State::new(&program);
    assert!(matches!(execute(&mut state, 0), Action::Continue));
    assert!(matches!(execute(&mut state, 2), Action::Continue));
    assert!(matches!(execute(&mut state, 100), Action::Finished));
}

#[test]
fn a_run_can_go_on_from_what_another_left() {
    let first = parse("set x 5\nset .y 6").expect("the program parses");
    let mut state = State::new(&first);
    let (memory, locals) = {
        let mut console = Console {
            out: String::new(),
            err: String::new(),
            input: Vec::new(),
        };
        loop {
            match execute(&mut state, 1000) {
                Action::Ask(request) => {
                    let reply = perform(request, &mut console);
                    state.answer(reply);
                }
                Action::Finished => break,
                _ => panic!("the program fails"),
            }
        }
        state.into_parts()
    };
    let second = parse("join [x] [.y]").expect("the program parses");
    let mut state = State::with(&second, memory, locals);
    let mut console = Console {
        out: String::new(),
        err: String::new(),
        input: Vec::new(),
    };
    loop {
        match execute(&mut state, 1000) {
            Action::Ask(request) => {
                let reply = perform(request, &mut console);
                state.answer(reply);
            }
            Action::Finished => break,
            _ => panic!("the program fails"),
        }
    }
    let shown = state.memory().heap.text(state.result(), 10);
    assert_eq!(shown, Some(String::from("56")));
}

#[test]
fn lists_nested_deep_are_printed_compared_and_copied() {
    let program = parse(
        "set a (list)\nset b (list)\nset i 1\nwhile (lt [i] 4000)\nset a (list [a])\nset b (list [b])\nset i (add [i] 1)\nend\nset c (_clone [a])\nprint (eq [a] [b]) (eq [a] [c]) (len (join [a]))",
    )
    .expect("the program parses");
    let mut state = State::new(&program);
    let mut console = Console {
        out: String::new(),
        err: String::new(),
        input: Vec::new(),
    };
    loop {
        match execute(&mut state, 100_000) {
            Action::Continue => {}
            Action::Ask(request) => {
                let reply = perform(request, &mut console);
                state.answer(reply);
            }
            Action::Finished => break,
            Action::Failed(e) => panic!("{}", e.message(&state.memory().heap)),
        }
    }
    assert_eq!(console.out, "1 1 8000\n");
}

#[test]
fn a_copy_equals_what_it_was_made_from_unless_it_holds_nan() {
    let code = "set a (list 1 x (list 2 (list)))\nprint (eq [a] (_clone [a]))\nset b (list nan)\nprint (eq [b] (_clone [b])) (eq [b] [b])";
    assert_eq!(output(code), "1\n0 0\n");
}
