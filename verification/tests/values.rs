use vurlrs::builtins::{
    arithmetic, blocks, builtins, compare, control, find, line_after, listing, local_name, naming,
    read_list, read_number, read_position, slice, wording, BinaryOp, Comparison, Function, Memory,
    Outcome, Request, Stream, Then, UnaryOp,
};
use vurlrs::error::{RunError, RunErrorKind};
use vurlrs::number::Num;
use vurlrs::parse::{Command, Expr};
use vurlrs::run::{execute, execute_function, Action, Reply, State};
use vurlrs::table::Table;
use vurlrs::value::{clone_values, Heap, Value, DEPTH_LIMIT};

fn num(x: f64) -> Num {
    Num::new(x.to_bits(), format!("{}", x))
}

fn n(x: f64) -> Value {
    Value::Number(num(x))
}

fn s(text: &str) -> Value {
    Value::String(String::from(text))
}

fn nothing() -> Value {
    Value::default()
}

#[test]
fn the_default_value_is_nan() {
    assert_eq!(nothing(), Value::Number(Num::nan()));
}

#[test]
fn a_copy_of_a_value_equals_it() {
    for v in [s("a"), n(1.5), Value::List(3), Value::Lineptr(4)] {
        assert_eq!(v.clone(), v);
    }
    assert_eq!(
        clone_values(&vec![s("a"), Value::List(0)]),
        vec![s("a"), Value::List(0)]
    );
}

#[test]
fn a_heap_hands_out_handles_in_order() {
    let mut heap = Heap::new();
    assert_eq!(heap.len(), 0);
    assert_eq!(heap.store(vec![s("a")]), 0);
    assert_eq!(heap.store(vec![]), 1);
    assert_eq!(heap.len(), 2);
    assert_eq!(heap.get(0), Some(&vec![s("a")]));
    assert_eq!(heap.get(1), Some(&vec![]));
    assert_eq!(heap.get(2), None);
    assert_eq!(heap.length(0), 1);
}

#[test]
fn the_lists_of_a_heap_change_in_place() {
    let mut heap = Heap::new();
    let l = heap.store(vec![s("a"), s("b")]);
    let other = heap.store(vec![s("z")]);
    heap.push(l, s("c"));
    heap.insert(l, 0, s("x"));
    heap.insert(l, 4, s("y"));
    assert_eq!(
        heap.get(l),
        Some(&vec![s("x"), s("a"), s("b"), s("c"), s("y")])
    );
    assert_eq!(heap.remove(l, 1), s("a"));
    heap.replace(l, 0, n(1.0));
    assert_eq!(heap.pop(l), Some(s("y")));
    assert_eq!(heap.get(l), Some(&vec![n(1.0), s("b"), s("c")]));
    assert_eq!(heap.get(other), Some(&vec![s("z")]));
    assert_eq!(heap.pop(other), Some(s("z")));
    assert_eq!(heap.pop(other), None);
}

#[test]
fn the_text_of_a_value() {
    let mut heap = Heap::new();
    let inner = heap.store(vec![n(2.0), s("b")]);
    let outer = heap.store(vec![n(1.0), Value::List(inner), Value::Lineptr(7)]);
    assert_eq!(heap.text(&s("abc"), 0), Some(String::from("abc")));
    assert_eq!(heap.text(&n(1.5), 0), Some(String::from("1.5")));
    assert_eq!(heap.text(&Value::Lineptr(12), 0), Some(String::from("(line 12)")));
    assert_eq!(
        heap.text(&Value::List(outer), 2),
        Some(String::from("(1,(2,b),(line 7))"))
    );
    assert_eq!(heap.text(&Value::List(outer), 1), None);
    assert_eq!(heap.text(&Value::List(inner), 1), Some(String::from("(2,b)")));
    assert_eq!(heap.text(&Value::List(inner), 0), None);
    assert_eq!(heap.text(&Value::List(99), 1), Some(String::from("()")));
    assert_eq!(
        heap.join(&vec![s("a"), Value::List(inner), n(3.0)], " - ", 1),
        Some(String::from("a - (2,b) - 3"))
    );
    assert_eq!(heap.join(&vec![], ",", 0), Some(String::new()));
    assert_eq!(heap.join(&vec![Value::List(outer)], ",", 1), None);
}

#[test]
fn equality_of_values() {
    let mut heap = Heap::new();
    let a = heap.store(vec![n(1.0), s("x")]);
    let b = heap.store(vec![n(1.0), s("x")]);
    let c = heap.store(vec![n(1.0), s("y")]);
    let d = heap.store(vec![n(1.0)]);
    let holds_nan = heap.store(vec![n(f64::NAN)]);
    assert_eq!(heap.equal(&Value::List(a), &Value::List(b), 1), Some(true));
    assert_eq!(heap.equal(&Value::List(a), &Value::List(c), 1), Some(false));
    assert_eq!(heap.equal(&Value::List(a), &Value::List(d), 1), Some(false));
    assert_eq!(heap.equal(&Value::List(d), &Value::List(a), 1), Some(false));
    assert_eq!(heap.equal(&Value::List(a), &Value::List(a), 0), None);
    assert_eq!(
        heap.equal(&Value::List(holds_nan), &Value::List(holds_nan), 5),
        Some(false)
    );
    assert_eq!(heap.equal(&n(1.0), &n(1.0), 0), Some(true));
    assert_eq!(heap.equal(&n(0.0), &n(-0.0), 0), Some(true));
    assert_eq!(heap.equal(&n(1.0), &s("1"), 0), Some(true));
    assert_eq!(heap.equal(&n(1.0), &s("1.0"), 0), Some(false));
    assert_eq!(heap.equal(&s("(1,x)"), &Value::List(a), 1), Some(true));
    assert_eq!(heap.equal(&s("(1,x)"), &Value::List(a), 0), None);
    assert_eq!(
        heap.equal(&Value::Lineptr(3), &s("(line 3)"), 0),
        Some(true)
    );
}

#[test]
fn a_copy_shares_no_list_with_its_source() {
    let mut heap = Heap::new();
    let inner = heap.store(vec![s("a")]);
    let outer = heap.store(vec![Value::List(inner), Value::List(inner), n(1.0)]);
    let copy = heap.copy(&Value::List(outer), 2);
    assert_eq!(copy, Some(Value::List(4)));
    assert_eq!(heap.len(), 5);
    assert_eq!(
        heap.get(4),
        Some(&vec![Value::List(2), Value::List(3), n(1.0)])
    );
    assert_eq!(heap.get(2), Some(&vec![s("a")]));
    assert_eq!(heap.get(3), Some(&vec![s("a")]));
    heap.push(2, s("b"));
    assert_eq!(heap.get(inner), Some(&vec![s("a")]));
    assert_eq!(
        heap.get(outer),
        Some(&vec![Value::List(inner), Value::List(inner), n(1.0)])
    );
    assert_eq!(heap.copy(&s("x"), 0), Some(s("x")));
    assert_eq!(heap.copy(&Value::List(outer), 1), None);
    assert_eq!(heap.copy(&Value::List(outer), 0), None);
    assert_eq!(
        heap.copy_all(&vec![s("x"), Value::List(inner)], 1),
        Some(vec![s("x"), Value::List(5)])
    );
}

#[test]
fn a_table_keeps_each_name_once_and_in_order() {
    let mut table: Table<Value> = Table::new();
    assert_eq!(table.len(), 0);
    assert_eq!(table.get("a"), None);
    table.insert(String::from("a"), n(1.0));
    table.insert(String::from("b"), n(2.0));
    table.insert(String::from("a"), n(3.0));
    assert_eq!(table.len(), 2);
    assert_eq!(table.get("a"), Some(&n(3.0)));
    assert_eq!(table.get("b"), Some(&n(2.0)));
    assert_eq!(table.get("c"), None);
    assert_eq!(table.get(""), None);
    assert_eq!(table.name_at(0), "a");
    assert_eq!(table.name_at(1), "b");
}

#[test]
fn names_are_local_by_their_dot() {
    assert!(local_name(".x"));
    assert!(local_name("."));
    assert!(!local_name("x"));
    assert!(!local_name("x.y"));
    assert!(!local_name(""));
    assert!(!local_name("%x"));
}

#[test]
fn a_name_is_looked_up_in_the_scope_of_its_dot() {
    let mut globals: Table<Value> = Table::new();
    let mut locals: Table<Value> = Table::new();
    globals.insert(String::from("x"), s("global x"));
    globals.insert(String::from("y"), s("global y"));
    globals.insert(String::from(".z"), s("global .z"));
    locals.insert(String::from("x"), s("local x"));
    locals.insert(String::from("v"), s("local v"));
    locals.insert(String::from(".w"), s("local .w"));
    assert_eq!(find(&globals, &locals, "x"), Some(&s("global x")));
    assert_eq!(find(&globals, &locals, "y"), Some(&s("global y")));
    assert_eq!(find(&globals, &locals, "v"), None);
    assert_eq!(find(&globals, &locals, ".w"), Some(&s("local .w")));
    assert_eq!(find(&globals, &locals, ".z"), None);
    assert_eq!(find(&globals, &locals, "w"), None);
}

#[test]
fn arguments_are_read_as_numbers_positions_and_lists() {
    let mut heap = Heap::new();
    let l = heap.store(vec![]);
    let args = vec![n(2.5), s("3"), Value::List(l), Value::Lineptr(1), n(0.5), Value::List(9)];
    assert_eq!(read_number(&args, 0), Ok(&num(2.5)));
    assert_eq!(read_number(&args, 1), Err(Outcome::Coerce(1)));
    assert_eq!(
        read_number(&args, 2),
        Err(Outcome::Fail(RunErrorKind::IsNotNumber(Value::List(l))))
    );
    assert_eq!(
        read_number(&args, 3),
        Err(Outcome::Fail(RunErrorKind::IsNotNumber(Value::Lineptr(1))))
    );
    assert_eq!(read_position(&args, 0), Ok(1));
    assert_eq!(read_position(&args, 1), Err(Outcome::Coerce(1)));
    assert_eq!(
        read_position(&args, 4),
        Err(Outcome::Fail(RunErrorKind::ZeroIndex))
    );
    assert_eq!(read_list(&heap, &args, 2), Ok(l));
    assert_eq!(
        read_list(&heap, &args, 0),
        Err(Outcome::Fail(RunErrorKind::IsNotList(n(2.5))))
    );
    assert_eq!(
        read_list(&heap, &args, 5),
        Err(Outcome::Fail(RunErrorKind::IsNotList(Value::List(9))))
    );
}

#[test]
fn the_line_after_a_line() {
    assert_eq!(line_after(0), 1);
    assert_eq!(line_after(41), 42);
    assert_eq!(line_after(usize::MAX), usize::MAX);
}

#[test]
fn comparisons_by_kind() {
    assert!(compare(Comparison::Lt, &num(1.0), &num(2.0)));
    assert!(!compare(Comparison::Lt, &num(2.0), &num(2.0)));
    assert!(compare(Comparison::Lte, &num(2.0), &num(2.0)));
    assert!(compare(Comparison::Gt, &num(3.0), &num(2.0)));
    assert!(compare(Comparison::Gte, &num(2.0), &num(2.0)));
    assert!(!compare(Comparison::Gte, &num(f64::NAN), &num(f64::NAN)));
}

#[test]
fn a_slice_of_a_text() {
    assert_eq!(slice("hello", 1, 4), "ell");
    assert_eq!(slice("hello", 0, 5), "hello");
    assert_eq!(slice("hello", 3, 99), "lo");
    assert_eq!(slice("hello", 4, 2), "");
    assert_eq!(slice("hello", 7, 9), "");
    assert_eq!(slice("h\u{e9}llo", 1, 3), "\u{e9}l");
}

#[test]
fn arithmetic_asks_the_host() {
    assert_eq!(
        arithmetic("sub", &vec![n(5.0), n(3.0)]),
        Some(Outcome::Ask(
            Request::Binary(BinaryOp::Sub, num(5.0), num(3.0)),
            Then::Finish
        ))
    );
    assert_eq!(
        arithmetic("add", &vec![n(5.0), n(3.0), n(1.0)]),
        Some(Outcome::Ask(
            Request::Binary(BinaryOp::Add, num(5.0), num(3.0)),
            Then::Reduce
        ))
    );
    assert_eq!(
        arithmetic("mul", &vec![n(5.0), s("3")]),
        Some(Outcome::Coerce(1))
    );
    assert_eq!(
        arithmetic("_sqrt", &vec![n(9.0)]),
        Some(Outcome::Ask(
            Request::Unary(UnaryOp::Sqrt, num(9.0)),
            Then::Finish
        ))
    );
    for (name, op) in [
        ("div", BinaryOp::Div),
        ("mod", BinaryOp::Rem),
        ("_pow", BinaryOp::Pow),
    ] {
        assert_eq!(
            arithmetic(name, &vec![n(1.0), n(2.0)]),
            Some(Outcome::Ask(
                Request::Binary(op, num(1.0), num(2.0)),
                Then::Finish
            ))
        );
    }
    assert_eq!(arithmetic("add", &vec![]), Some(Outcome::Value(n(0.0))));
    assert_eq!(arithmetic("mul", &vec![]), Some(Outcome::Value(n(1.0))));
    assert_eq!(arithmetic("lt", &vec![n(1.0), n(2.0)]), Some(Outcome::Value(n(1.0))));
    assert_eq!(arithmetic("print", &vec![]), None);
    assert_eq!(arithmetic("Add", &vec![]), None);
}

#[test]
fn wording_asks_the_host_to_write() {
    let heap = Heap::new();
    assert_eq!(
        wording(&heap, "print", &vec![s("a"), n(1.0)]),
        Some(Outcome::Ask(
            Request::Write(Stream::Out, String::from("a 1\n")),
            Then::Finish
        ))
    );
    assert_eq!(
        wording(&heap, "_printerrraw", &vec![s("a"), n(1.0)]),
        Some(Outcome::Ask(
            Request::Write(Stream::Error, String::from("a1")),
            Then::Finish
        ))
    );
    assert_eq!(
        wording(&heap, "print", &vec![]),
        Some(Outcome::Ask(
            Request::Write(Stream::Out, String::new()),
            Then::Finish
        ))
    );
    assert_eq!(
        wording(&heap, "len", &vec![s("abc")]),
        Some(Outcome::Ask(Request::Convert(3), Then::Finish))
    );
    assert_eq!(
        wording(&heap, "_ord", &vec![s("A")]),
        Some(Outcome::Ask(Request::Convert(65), Then::Finish))
    );
    assert_eq!(
        wording(&heap, "input", &vec![]),
        Some(Outcome::Ask(Request::ReadLine, Then::Finish))
    );
    assert_eq!(wording(&heap, "add", &vec![]), None);
}

#[test]
fn listing_changes_the_heap() {
    let mut heap = Heap::new();
    assert_eq!(
        listing(&mut heap, "list", &vec![s("a"), s("b")]),
        Some(Outcome::Value(Value::List(0)))
    );
    assert_eq!(
        listing(&mut heap, "push", &vec![Value::List(0), s("c")]),
        Some(Outcome::Value(nothing()))
    );
    assert_eq!(
        listing(&mut heap, "index", &vec![Value::List(0), n(3.0)]),
        Some(Outcome::Value(s("c")))
    );
    assert_eq!(
        listing(&mut heap, "index", &vec![Value::List(0), n(4.0)]),
        Some(Outcome::Fail(RunErrorKind::IndexError(3, 3)))
    );
    assert_eq!(
        listing(&mut heap, "index", &vec![Value::List(5), n(1.0)]),
        Some(Outcome::Fail(RunErrorKind::IsNotList(Value::List(5))))
    );
    assert_eq!(
        listing(&mut heap, "index", &vec![Value::List(0)]),
        Some(Outcome::Fail(RunErrorKind::ValueError(2)))
    );
    assert_eq!(listing(&mut heap, "print", &vec![]), None);
    assert_eq!(heap.get(0), Some(&vec![s("a"), s("b"), s("c")]));
}

#[test]
fn naming_writes_by_the_dot() {
    let mut heap = Heap::new();
    let mut globals: Table<Value> = Table::new();
    let mut locals: Table<Value> = Table::new();
    assert_eq!(
        naming(&mut heap, &mut globals, &mut locals, "set", &vec![s("x"), n(1.0)]),
        Some(Outcome::Value(nothing()))
    );
    assert_eq!(
        naming(&mut heap, &mut globals, &mut locals, "set", &vec![s(".x"), n(2.0)]),
        Some(Outcome::Value(nothing()))
    );
    assert_eq!(globals.get("x"), Some(&n(1.0)));
    assert_eq!(globals.get(".x"), None);
    assert_eq!(locals.get(".x"), Some(&n(2.0)));
    assert_eq!(locals.get("x"), None);
    assert_eq!(
        naming(&mut heap, &mut globals, &mut locals, "_get", &vec![s(".x")]),
        Some(Outcome::Value(n(2.0)))
    );
    assert_eq!(
        naming(&mut heap, &mut globals, &mut locals, "_get", &vec![s("y")]),
        Some(Outcome::Fail(RunErrorKind::NameError(String::from("y"))))
    );
    assert_eq!(
        naming(&mut heap, &mut globals, &mut locals, "_globals", &vec![]),
        Some(Outcome::Value(Value::List(0)))
    );
    assert_eq!(heap.get(0), Some(&vec![s("x")]));
    assert_eq!(
        naming(&mut heap, &mut globals, &mut locals, "set", &vec![n(1.5), s("v")]),
        Some(Outcome::Value(nothing()))
    );
    assert_eq!(globals.get("1.5"), Some(&s("v")));
    assert_eq!(
        naming(&mut heap, &mut globals, &mut locals, "add", &vec![]),
        None
    );
}

#[test]
fn control_redirects_and_returns() {
    let mut heap = Heap::new();
    let l = heap.store(vec![n(1.0), n(2.0)]);
    assert_eq!(
        control(&heap, "call", &vec![s("f"), n(1.0), n(2.0)]),
        Outcome::Redirect(String::from("call f"), vec![n(1.0), n(2.0)])
    );
    assert_eq!(
        control(&heap, "_apply", &vec![s("add"), Value::List(l)]),
        Outcome::Redirect(String::from("add"), vec![n(1.0), n(2.0)])
    );
    assert_eq!(control(&heap, "_return", &vec![]), Outcome::Return(nothing()));
    assert_eq!(control(&heap, "_return", &vec![s("v")]), Outcome::Return(s("v")));
    assert_eq!(
        control(&heap, "_random", &vec![n(1.5), n(6.5)]),
        Outcome::Draw(1, 6)
    );
    assert_eq!(
        control(&heap, "_random", &vec![n(2.0), n(1.0)]),
        Outcome::Fail(RunErrorKind::EmptyRange)
    );
    assert_eq!(
        control(&heap, "_time", &vec![]),
        Outcome::Ask(Request::Time, Then::Finish)
    );
    assert_eq!(
        control(&heap, "_rand", &vec![]),
        Outcome::Ask(Request::Rand, Then::Finish)
    );
    assert_eq!(
        control(&heap, "while", &vec![n(1.0)]),
        Outcome::Fail(RunErrorKind::MustBeTopLevel)
    );
    assert_eq!(control(&heap, "f", &vec![n(1.0)]), Outcome::Unknown);
}

#[test]
fn blocks_jump_and_define() {
    let heap = Heap::new();
    let mut functions: Table<Function> = Table::new();
    assert_eq!(
        blocks(&mut functions, &heap, 4, "if", vec![n(0.0)], 9),
        Outcome::Jump(10)
    );
    assert_eq!(
        blocks(&mut functions, &heap, 4, "if", vec![n(2.0)], 9),
        Outcome::Value(nothing())
    );
    assert_eq!(
        blocks(&mut functions, &heap, 4, "while", vec![n(-0.0)], 9),
        Outcome::Jump(10)
    );
    assert_eq!(
        blocks(&mut functions, &heap, 4, "while", vec![n(f64::NAN)], 9),
        Outcome::Value(nothing())
    );
    assert_eq!(
        blocks(&mut functions, &heap, 9, "end while", vec![], 4),
        Outcome::Jump(4)
    );
    assert_eq!(
        blocks(&mut functions, &heap, 9, "end if", vec![], 4),
        Outcome::Value(nothing())
    );
    assert_eq!(
        blocks(&mut functions, &heap, 9, "end _cmd", vec![s("v")], 4),
        Outcome::Return(s("v"))
    );
    assert_eq!(
        blocks(&mut functions, &heap, 9, "end define", vec![], 4),
        Outcome::Return(nothing())
    );
    assert_eq!(
        blocks(&mut functions, &heap, 9, "end _func", vec![s("a"), s("b")], 4),
        Outcome::Fail(RunErrorKind::ValueError(1))
    );
    assert_eq!(
        blocks(&mut functions, &heap, 4, "_cmd", vec![s("f"), s("x"), s("y")], 9),
        Outcome::Jump(10)
    );
    assert_eq!(
        functions.get("f"),
        Some(&Function {
            lineno: 5,
            arguments: Some(vec![String::from("x"), String::from("y")]),
        })
    );
    assert_eq!(
        blocks(&mut functions, &heap, 20, "_func", vec![s("g"), s("..."), s("y")], 30),
        Outcome::Jump(31)
    );
    assert_eq!(
        functions.get("g"),
        Some(&Function {
            lineno: 21,
            arguments: None,
        })
    );
    assert_eq!(
        blocks(&mut functions, &heap, 32, "_cmd", vec![s("h")], 36),
        Outcome::Jump(37)
    );
    assert_eq!(
        functions.get("h"),
        Some(&Function {
            lineno: 33,
            arguments: None,
        })
    );
    assert_eq!(
        blocks(&mut functions, &heap, 32, "_cmd", vec![], 36),
        Outcome::Fail(RunErrorKind::ValueError(1))
    );
    assert_eq!(
        blocks(&mut functions, &heap, 40, "define", vec![s("f")], 50),
        Outcome::Jump(51)
    );
    assert_eq!(
        functions.get("call f"),
        Some(&Function {
            lineno: 41,
            arguments: None,
        })
    );
    assert_eq!(
        blocks(&mut functions, &heap, 60, "_cmd", vec![s("f"), s("z")], 70),
        Outcome::Fail(RunErrorKind::FuncDefined(String::from("f")))
    );
    assert_eq!(
        functions.get("f").map(|f| f.lineno),
        Some(5)
    );
    assert_eq!(
        blocks(&mut functions, &heap, 4, "print", vec![s("a")], 9),
        Outcome::Redirect(String::from("print"), vec![s("a")])
    );
}

#[test]
fn a_command_with_a_line_at_its_end_is_a_block_command() {
    let mut memory = Memory::new();
    let mut locals: Table<Value> = Table::new();
    assert_eq!(
        builtins(&mut memory, &mut locals, 3, "if", &vec![n(0.0), Value::Lineptr(8)]),
        Outcome::Jump(9)
    );
    assert_eq!(
        builtins(&mut memory, &mut locals, 3, "if", &vec![n(0.0)]),
        Outcome::Fail(RunErrorKind::MustBeTopLevel)
    );
    assert_eq!(
        builtins(&mut memory, &mut locals, 3, "add", &vec![n(1.0), Value::Lineptr(8)]),
        Outcome::Redirect(String::from("add"), vec![n(1.0)])
    );
    assert_eq!(
        builtins(&mut memory, &mut locals, 3, "list", &vec![n(1.0)]),
        Outcome::Value(Value::List(0))
    );
    assert_eq!(
        builtins(&mut memory, &mut locals, 3, "set", &vec![s("x"), Value::List(0)]),
        Outcome::Value(nothing())
    );
    assert_eq!(memory.globals.get("x"), Some(&Value::List(0)));
    assert_eq!(
        builtins(&mut memory, &mut locals, 3, "nosuch", &vec![]),
        Outcome::Unknown
    );
}

#[test]
fn entering_a_function_binds_its_arguments() {
    let mut memory = Memory::new();
    memory.functions.insert(
        String::from("f"),
        Function {
            lineno: 7,
            arguments: Some(vec![String::from("x"), String::from("y")]),
        },
    );
    memory.functions.insert(
        String::from("g"),
        Function {
            lineno: 9,
            arguments: None,
        },
    );
    let frame = execute_function(&mut memory, "f", &vec![n(3.0), n(4.0)]).expect("f is entered");
    assert_eq!(frame.lineno, 7);
    assert_eq!(frame.tasks.len(), 0);
    assert_eq!(frame.locals.len(), 3);
    assert_eq!(frame.locals.get(".args"), Some(&Value::List(0)));
    assert_eq!(frame.locals.get("x"), Some(&n(3.0)));
    assert_eq!(frame.locals.get("y"), Some(&n(4.0)));
    assert_eq!(memory.heap.get(0), Some(&vec![n(3.0), n(4.0)]));
    let frame = execute_function(&mut memory, "g", &vec![s("a")]).expect("g is entered");
    assert_eq!(frame.lineno, 9);
    assert_eq!(frame.locals.len(), 1);
    assert_eq!(frame.locals.get(".args"), Some(&Value::List(1)));
    assert_eq!(
        execute_function(&mut memory, "f", &vec![n(3.0)]).err(),
        Some(RunErrorKind::ValueError(2))
    );
    assert_eq!(
        execute_function(&mut memory, "h", &vec![]).err(),
        Some(RunErrorKind::NotImplemented)
    );
    assert_eq!(memory.heap.len(), 2);
}

#[test]
fn a_function_that_runs_past_the_program_fails() {
    let mut memory = Memory::new();
    memory.functions.insert(
        String::from("f"),
        Function {
            lineno: 5,
            arguments: None,
        },
    );
    let lines = vec![Some(Command {
        name: String::from("f"),
        args: vec![],
    })];
    let mut state = State::with(&lines, memory, Table::new());
    match execute(&mut state, 100) {
        Action::Failed(e) => assert_eq!(
            e.message(&state.memory().heap),
            "error (line 0, command f):\nerror (line 5, command n/a):\nfunction ran past the end of the program"
        ),
        other => panic!("{:?}", other),
    }
    assert_eq!(execute(&mut state, 100), Action::Finished);
}

#[test]
fn a_program_made_by_hand_runs() {
    let lines = vec![
        Some(Command {
            name: String::from("set"),
            args: vec![
                Expr::Literal(String::from("x")),
                Expr::Command(Command {
                    name: String::from("list"),
                    args: vec![Expr::Lineptr(3), Expr::Literal(String::from("a"))],
                }),
            ],
        }),
        None,
    ];
    let mut state = State::new(&lines);
    assert_eq!(execute(&mut state, 100), Action::Finished);
    assert_eq!(state.memory().globals.get("x"), Some(&Value::List(0)));
    assert_eq!(
        state.memory().heap.get(0),
        Some(&vec![Value::Lineptr(3), Value::String(String::from("a"))])
    );
    assert_eq!(state.result(), &Value::default());
}

#[test]
fn a_reply_that_is_no_number_fails_the_command() {
    let lines = vec![Some(Command {
        name: String::from("print"),
        args: vec![Expr::Number(String::from("12"))],
    })];
    let mut state = State::new(&lines);
    assert_eq!(
        execute(&mut state, 100),
        Action::Ask(Request::Parse(String::from("12")))
    );
    match state.answer(Reply::NotANumber) {
        Action::Failed(e) => assert_eq!(
            e,
            RunError {
                line: 0,
                function: String::from("print"),
                inner: RunErrorKind::IsNotNumber(Value::String(String::from("12"))),
            }
        ),
        other => panic!("{:?}", other),
    }
}

#[test]
fn the_messages_of_errors() {
    let mut heap = Heap::new();
    let l = heap.store(vec![n(1.0)]);
    let cases = vec![
        (RunErrorKind::Return(Value::List(l)), "value (1) returned outside function"),
        (RunErrorKind::ValueError(0), "expected 0 arguments"),
        (RunErrorKind::ValueError(1), "expected 1 argument"),
        (RunErrorKind::ValueError(2), "expected 2 arguments"),
        (RunErrorKind::NotImplemented, "command not implemented"),
        (RunErrorKind::NameError(String::from("x")), "variable [x] is undefined"),
        (RunErrorKind::FuncDefined(String::from("f")), "function f is already defined"),
        (RunErrorKind::IsNotNumber(s("abc")), "abc is not a number"),
        (RunErrorKind::IsNotList(n(5.0)), "5 is not a list"),
        (RunErrorKind::IOError(String::from("broken pipe")), "io error: broken pipe"),
        (RunErrorKind::ZeroIndex, "vurl is one-indexed, sadly"),
        (RunErrorKind::IndexError(4, 2), "tried to use index 4 of a list of 2 items"),
        (RunErrorKind::PopError, "cannot pop from an empty list"),
        (RunErrorKind::OrdError(String::from("ab")), "string \"ab\" must be one character long"),
        (RunErrorKind::ChrError(55296), "55296 is not a valid unicode codepoint"),
        (RunErrorKind::UserError(String::from("boom")), "boom"),
        (RunErrorKind::MustBeTopLevel, "a block command must start its line"),
        (RunErrorKind::TooDeep, "lists are nested too deep"),
        (RunErrorKind::EmptyRange, "cannot draw from an empty range"),
        (RunErrorKind::PastEnd, "function ran past the end of the program"),
    ];
    for (kind, message) in cases {
        assert_eq!(kind.message(&heap), message);
    }
    let inner = RunError {
        line: 3,
        function: String::from("pop"),
        inner: RunErrorKind::PopError,
    };
    let outer = RunError {
        line: 10,
        function: String::from("f"),
        inner: RunErrorKind::Wrap(Box::new(inner)),
    };
    assert_eq!(
        outer.message(&heap),
        "error (line 10, command f):\nerror (line 3, command pop):\ncannot pop from an empty list"
    );
    let mut out = String::from("> ");
    outer.inner.push_message(&mut out, &heap);
    assert_eq!(out, "> error (line 3, command pop):\ncannot pop from an empty list");
}

#[test]
fn a_list_too_deep_shows_as_dots_in_a_message() {
    let mut heap = Heap::new();
    let l = heap.store(vec![]);
    heap.push(l, Value::List(l));
    assert_eq!(heap.text(&Value::List(l), DEPTH_LIMIT), None);
    assert_eq!(
        RunErrorKind::IsNotNumber(Value::List(l)).message(&heap),
        "(...) is not a number"
    );
}
