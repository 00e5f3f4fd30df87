use runpack::{
    register_primitives, ArithOp, BlockRef, Cell, ErrorKind, FloatOp, HostCall, NativeFn, Pack, Stack,
    Step,
};

fn run_all(pack: &mut Pack) -> Result<Step, runpack::Error> {
    pack.run(1_000_000)
}

fn primitives_only(src: &str) -> Pack {
    let mut pack = Pack::bare();
    register_primitives(&mut pack);
    pack.code(src);
    pack
}

fn top(pack: &Pack) -> Cell {
    pack.stack.get(0).cloned().expect("stack is empty")
}

fn err_kind(r: Result<Step, runpack::Error>) -> ErrorKind {
    match r {
        Err(e) => e.kind,
        Ok(s) => panic!("expected an error, got {:?}", s),
    }
}

#[test]
fn end_to_end_counter() {
    let mut pack = Pack::new();
    pack.code("10 def num { num 1 + def num } def inc inc inc num");
    assert_eq!(run_all(&mut pack).unwrap(), Step::End);
    assert_eq!(top(&pack), Cell::Integer(12));
    assert_eq!(pack.ret.size(), 0);
}

#[test]
fn block_capture_is_exact() {
    let mut pack = primitives_only("{ 1 2 + }");
    assert_eq!(pack.one_step().unwrap(), Step::Ran);
    assert_eq!(top(&pack), Cell::Block(BlockRef { pos: 1, len: 4 }));
    assert_eq!(pack.concat.pointer, 5);
    assert_eq!(pack.stack.size(), 1);
}

#[test]
fn captured_block_runs_to_three() {
    let mut pack = primitives_only("{ 1 2 + } exe");
    assert_eq!(run_all(&mut pack).unwrap(), Step::End);
    assert_eq!(pack.stack.size(), 1);
    assert_eq!(top(&pack), Cell::Integer(3));
    assert_eq!(pack.concat.pointer, 6);
    assert_eq!(pack.ret.size(), 0);
}

#[test]
fn nested_entries_return_in_order() {
    let mut pack = primitives_only("{ { { 7 } exe } exe } exe 8");
    assert_eq!(run_all(&mut pack).unwrap(), Step::End);
    assert_eq!(pack.stack.size(), 2);
    assert_eq!(top(&pack), Cell::Integer(8));
    assert_eq!(pack.stack.get(1), Some(&Cell::Integer(7)));
    assert_eq!(pack.ret.size(), 0);
}

#[test]
fn three_entries_three_exits_restore_cursor() {
    let mut pack = primitives_only("} } }");
    pack.concat.pointer = 0;
    let start = 40;
    pack.ret.push(start);
    pack.ret.push(1);
    pack.ret.push(2);
    // each `}` resumes at the most recent saved address: 2, then 1, then 40
    assert_eq!(pack.one_step().unwrap(), Step::Ran);
    assert_eq!(pack.concat.pointer, 2);
    assert_eq!(pack.one_step().unwrap(), Step::Ran);
    assert_eq!(pack.concat.pointer, 1);
    assert_eq!(pack.one_step().unwrap(), Step::Ran);
    assert_eq!(pack.concat.pointer, start);
    assert_eq!(pack.ret.size(), 0);
}

#[test]
fn integer_plus_float_is_type_mismatch() {
    let mut pack = primitives_only("");
    pack.stack.push(Cell::Integer(2));
    pack.stack.push(Cell::Float("3.0".to_string()));
    assert_eq!(err_kind(pack.exec("+")), ErrorKind::TypeMismatch);
}

#[test]
fn integer_plus_integer() {
    let mut pack = primitives_only("2 3 +");
    assert_eq!(run_all(&mut pack).unwrap(), Step::End);
    assert_eq!(top(&pack), Cell::Integer(5));
}

#[test]
fn string_plus_string() {
    let mut pack = primitives_only("'a' 'b' +");
    assert_eq!(run_all(&mut pack).unwrap(), Step::End);
    assert_eq!(top(&pack), Cell::String("ab".to_string()));
}

#[test]
fn float_arithmetic_goes_to_host() {
    let mut pack = primitives_only("1.5 2.5 +");
    assert_eq!(run_all(&mut pack).unwrap(), Step::Host(HostCall::Float(FloatOp::Arith(ArithOp::Add))));
    assert_eq!(pack.stack.size(), 2);
    assert_eq!(top(&pack), Cell::Float("2.5".to_string()));
}

#[test]
fn division_by_zero_is_reported() {
    let mut pack = primitives_only("7 0 /");
    assert_eq!(err_kind(run_all(&mut pack)), ErrorKind::DivisionByZero);
    let mut pack = primitives_only("7 0 %");
    assert_eq!(err_kind(run_all(&mut pack)), ErrorKind::DivisionByZero);
}

#[test]
fn division_truncates() {
    let mut pack = primitives_only("-7 2 / 7 -2 %");
    assert_eq!(run_all(&mut pack).unwrap(), Step::End);
    assert_eq!(top(&pack), Cell::Integer(1));
    assert_eq!(pack.stack.get(1), Some(&Cell::Integer(-3)));
}

#[test]
fn integer_overflow_is_reported() {
    let mut pack = primitives_only("9223372036854775807 1 +");
    assert_eq!(err_kind(run_all(&mut pack)), ErrorKind::Overflow);
}

#[test]
fn underflow_inside_scope() {
    let mut pack = primitives_only("1 2 ( 3 + )");
    assert_eq!(err_kind(run_all(&mut pack)), ErrorKind::StackUnderflow);
    let mut pack = primitives_only(")");
    assert_eq!(err_kind(run_all(&mut pack)), ErrorKind::StackUnderflow);
}

#[test]
fn pop_never_reaches_outer_scope() {
    let mut s = Stack::new();
    s.push(Cell::Integer(1));
    s.start_stack();
    assert_eq!(s.pop(), None);
    assert_eq!(s.get(0), None);
    assert_eq!(s.end_stack(), Some(0));
    assert_eq!(s.pop(), Some(Cell::Integer(1)));
    assert_eq!(s.pop(), None);
    assert_eq!(s.end_stack(), None);
}

#[test]
fn stack_scoping_example() {
    let mut s = Stack::new();
    s.push(Cell::Integer(1));
    s.push(Cell::Integer(2));
    s.start_stack();
    s.push(Cell::Integer(3));
    assert_eq!(s.size(), 1);
    assert_eq!(s.pop(), Some(Cell::Integer(3)));
    s.end_stack();
    assert_eq!(s.size(), 2);
    assert_eq!(s.get(0), Some(&Cell::Integer(2)));
}

#[test]
fn leave_exits_loop_and_word() {
    let mut pack = Pack::new();
    pack.code("{ 10 loop 1 - dup 5 = { 1 leave } { } either true again } def count count");
    assert_eq!(run_all(&mut pack).unwrap(), Step::End);
    assert_eq!(pack.ret.size(), 0);
    assert_eq!(pack.stack.size(), 1);
    assert_eq!(top(&pack), Cell::Integer(5));
}

#[test]
fn loop_again_counts_down() {
    let mut pack = Pack::new();
    pack.code("3 loop 1 - dup 0 > again");
    assert_eq!(run_all(&mut pack).unwrap(), Step::End);
    assert_eq!(pack.stack.size(), 1);
    assert_eq!(top(&pack), Cell::Integer(0));
    assert_eq!(pack.ret.size(), 0);
}

#[test]
fn break_leaves_one_level() {
    let mut pack = Pack::new();
    pack.code("{ loop 1 break 2 } def once once 3");
    assert_eq!(run_all(&mut pack).unwrap(), Step::End);
    assert_eq!(pack.stack.size(), 2);
    assert_eq!(top(&pack), Cell::Integer(3));
    assert_eq!(pack.stack.get(1), Some(&Cell::Integer(1)));
}

#[test]
fn if_picks_a_word() {
    let mut pack = Pack::new();
    pack.code("{ 'yes' } def y { 'no' } def n 1 2 < if y n 2 1 < if y n");
    assert_eq!(run_all(&mut pack).unwrap(), Step::End);
    assert_eq!(top(&pack), Cell::String("no".to_string()));
    assert_eq!(pack.stack.get(1), Some(&Cell::String("yes".to_string())));
}

#[test]
fn either_enters_one_block() {
    let mut pack = primitives_only("false { 1 } { 2 } either 3");
    assert_eq!(run_all(&mut pack).unwrap(), Step::End);
    assert_eq!(pack.stack.size(), 2);
    assert_eq!(pack.stack.get(1), Some(&Cell::Integer(2)));
}

#[test]
fn transfer_reorders_and_copies() {
    let mut pack = primitives_only("1 2 [ a b | b a a ]");
    assert_eq!(run_all(&mut pack).unwrap(), Step::End);
    assert_eq!(pack.stack.size(), 3);
    // `a` takes the top (2), `b` the cell below it (1)
    assert_eq!(pack.stack.get(0), Some(&Cell::Integer(2)));
    assert_eq!(pack.stack.get(1), Some(&Cell::Integer(2)));
    assert_eq!(pack.stack.get(2), Some(&Cell::Integer(1)));
}

#[test]
fn transfer_with_unbound_name_fails() {
    let mut pack = primitives_only("1 [ a | b ]");
    assert_eq!(err_kind(run_all(&mut pack)), ErrorKind::UndefinedWord);
    let mut pack = primitives_only("[ a | a ]");
    assert_eq!(err_kind(run_all(&mut pack)), ErrorKind::StackUnderflow);
}

#[test]
fn block_template_fills_placeholders() {
    let mut pack = primitives_only("10 { 1 $ + } block exe");
    assert_eq!(run_all(&mut pack).unwrap(), Step::End);
    assert_eq!(pack.stack.size(), 1);
    assert_eq!(top(&pack), Cell::Integer(11));
}

#[test]
fn lex_prefixes_definitions() {
    let mut pack = Pack::new();
    pack.code("lex domain 10 def num \\lex domain.num lex# 'x'");
    assert_eq!(run_all(&mut pack).unwrap(), Step::End);
    assert_eq!(pack.stack.get(2), Some(&Cell::Integer(10)));
    assert_eq!(pack.stack.get(1), Some(&Cell::String(String::new())));
    assert_eq!(pack.dictionary.lex, "");
}

#[test]
fn undefined_word_is_reported() {
    let mut pack = primitives_only("nothing_here");
    assert_eq!(err_kind(run_all(&mut pack)), ErrorKind::UndefinedWord);
}

#[test]
fn unterminated_block_is_reported() {
    let mut pack = primitives_only("{ 1 { 2 }");
    assert_eq!(err_kind(run_all(&mut pack)), ErrorKind::UnterminatedBlock);
}

#[test]
fn close_curly_without_caller_underflows() {
    let mut pack = primitives_only("}");
    assert_eq!(err_kind(run_all(&mut pack)), ErrorKind::ReturnUnderflow);
}

#[test]
fn empty_cell_on_tape_is_invalid() {
    let mut pack = primitives_only("");
    pack.concat.array.push(Cell::Empty);
    assert_eq!(err_kind(pack.one_step()), ErrorKind::InvalidCell);
}

#[test]
fn host_native_is_handed_back() {
    let mut pack = primitives_only("1 print 2");
    pack.dictionary.native("print", NativeFn::Host(7));
    assert_eq!(run_all(&mut pack).unwrap(), Step::Host(HostCall::Native(7)));
    assert_eq!(pack.concat.pointer, 2);
    assert_eq!(run_all(&mut pack).unwrap(), Step::End);
    assert_eq!(pack.stack.size(), 2);
}

#[test]
fn type_and_exist_queries() {
    let mut pack = Pack::new();
    pack.code("20 type @ dup exist? @ nope exist?");
    assert_eq!(run_all(&mut pack).unwrap(), Step::End);
    assert_eq!(top(&pack), Cell::Boolean(false));
    assert_eq!(pack.stack.get(1), Some(&Cell::Word("nope".to_string())));
    assert_eq!(pack.stack.get(2), Some(&Cell::Boolean(true)));
    assert_eq!(pack.stack.get(4), Some(&Cell::String("integer".to_string())));
}

#[test]
fn comparisons_follow_cell_order() {
    let mut pack = primitives_only("2 1 > 'a' 'b' < 1 'a' < 3 3 = 3 4 !=");
    assert_eq!(run_all(&mut pack).unwrap(), Step::End);
    for i in 0..5 {
        assert_eq!(pack.stack.get(i), Some(&Cell::Boolean(true)));
    }
}

#[test]
fn logic_on_booleans_and_integers() {
    let mut pack = primitives_only("true false or 12 10 and 0 not");
    assert_eq!(run_all(&mut pack).unwrap(), Step::End);
    assert_eq!(top(&pack), Cell::Integer(-1));
    assert_eq!(pack.stack.get(1), Some(&Cell::Integer(8)));
    assert_eq!(pack.stack.get(2), Some(&Cell::Boolean(true)));
}

#[test]
fn skip_moves_cursor() {
    let mut pack = primitives_only("1 skip 5 6");
    assert_eq!(run_all(&mut pack).unwrap(), Step::End);
    assert_eq!(pack.stack.size(), 1);
    assert_eq!(top(&pack), Cell::Integer(6));
}

#[test]
fn size_and_wipe() {
    let mut pack = primitives_only("1 2 ( 3 4 size ) ( 5 wipe size )");
    assert_eq!(run_all(&mut pack).unwrap(), Step::End);
    assert_eq!(top(&pack), Cell::Integer(0));
    assert_eq!(pack.stack.get(1), Some(&Cell::Integer(2)));
    assert_eq!(pack.stack.size(), 6);
}

#[test]
fn string_and_word_conversions() {
    let mut pack = Pack::new();
    pack.code("@ hello string 'there' word");
    assert_eq!(run_all(&mut pack).unwrap(), Step::End);
    assert_eq!(top(&pack), Cell::Word("there".to_string()));
    assert_eq!(pack.stack.get(1), Some(&Cell::String("hello".to_string())));
}

#[test]
fn int_and_float_conversions_go_to_host() {
    let mut pack = primitives_only("10 float");
    assert_eq!(run_all(&mut pack).unwrap(), Step::Host(HostCall::Float(FloatOp::FromInt)));
    let mut pack = primitives_only("10 int");
    assert_eq!(err_kind(run_all(&mut pack)), ErrorKind::TypeMismatch);
}

#[test]
fn help_entries_are_recorded_when_enabled() {
    let mut pack = primitives_only("? sq 'a -> b' 'Square a number.'");
    pack.dictionary.data("?__", Cell::Boolean(true));
    assert_eq!(run_all(&mut pack).unwrap(), Step::End);
    assert!(pack.dictionary.is_defined("?_sq_stack_"));
    assert!(pack.dictionary.is_defined("?_sq_desc_"));
    assert_eq!(pack.concat.pointer, 4);
}

#[test]
fn variables_and_setters_from_prelude() {
    let mut pack = Pack::new();
    pack.code("10 var num 3 num! num 5 ++ 7 -- ( 1 2 3 sum )");
    assert_eq!(run_all(&mut pack).unwrap(), Step::End);
    assert_eq!(top(&pack), Cell::Integer(6));
    assert_eq!(pack.stack.get(1), Some(&Cell::Integer(6)));
    assert_eq!(pack.stack.get(2), Some(&Cell::Integer(6)));
    assert_eq!(pack.stack.get(3), Some(&Cell::Integer(3)));
}

#[test]
fn run_stops_at_budget() {
    let mut pack = primitives_only("1 2 3");
    assert_eq!(pack.run(2).unwrap(), Step::Budget);
    assert_eq!(pack.stack.size(), 2);
    assert_eq!(pack.run(0).unwrap(), Step::Budget);
    assert_eq!(pack.run(5).unwrap(), Step::End);
}

#[test]
fn at_at_reads_from_caller() {
    let mut pack = primitives_only("{ @@ } exe hello");
    assert_eq!(run_all(&mut pack).unwrap(), Step::End);
    assert_eq!(pack.stack.size(), 1);
    assert_eq!(top(&pack), Cell::Word("hello".to_string()));
}

#[test]
fn while_do_counts_down() {
    let mut pack = Pack::new();
    pack.code("{ dup 0 > } def more? { 1 - } def dec { while more? do dec } def countdown 3 countdown 9");
    assert_eq!(run_all(&mut pack).unwrap(), Step::End);
    assert_eq!(pack.stack.size(), 2);
    assert_eq!(pack.stack.get(1), Some(&Cell::Integer(0)));
    assert_eq!(top(&pack), Cell::Integer(9));
    assert_eq!(pack.ret.size(), 0);
}

#[test]
fn do_without_defined_action_fails() {
    let mut pack = primitives_only("true do nothing");
    assert_eq!(err_kind(run_all(&mut pack)), ErrorKind::MissingArgument);
}

#[test]
fn bad_addresses_are_reported() {
    let mut pack = primitives_only("-5 skip");
    assert_eq!(err_kind(run_all(&mut pack)), ErrorKind::BadAddress);
    let mut pack = primitives_only("");
    assert_eq!(err_kind(pack.exec("loop")), ErrorKind::BadAddress);
}

#[test]
fn return_stack_is_lifo() {
    let mut ret = runpack::RetStack::new();
    assert_eq!(ret.pop(), None);
    ret.push(3);
    ret.push(9);
    assert_eq!(ret.size(), 2);
    assert_eq!(ret.pop(), Some(9));
    assert_eq!(ret.pop(), Some(3));
    assert_eq!(ret.size(), 0);
}

#[test]
fn error_keeps_message_and_kind() {
    let e = runpack::Error::new("boom".to_string(), ErrorKind::InvalidCell);
    assert_eq!(e.msg, "boom");
    assert_eq!(e.kind, ErrorKind::InvalidCell);
}

#[test]
fn dictionary_prefix_and_lookup() {
    let mut pack = Pack::bare();
    pack.dictionary.lex = "math.".to_string();
    pack.dictionary.data("pi", Cell::Integer(3));
    assert!(pack.dictionary.is_defined("math.pi"));
    assert!(!pack.dictionary.is_defined("pi"));
    pack.dictionary.data("pi", Cell::Integer(4));
    match pack.dictionary.get("math.pi") {
        Some(runpack::DictEntry::Data(c)) => assert_eq!(c, &Cell::Integer(4)),
        _ => panic!("math.pi is not a constant"),
    }
}

#[test]
fn tape_cursor_reads_in_order() {
    let mut tape = runpack::Concat::new();
    tape.array.push(Cell::Integer(1));
    tape.array.push(Cell::Boolean(true));
    assert_eq!(tape.next(), Some(&Cell::Integer(1)));
    assert_eq!(tape.next_clone(), Some(Cell::Boolean(true)));
    assert_eq!(tape.next(), None);
    assert_eq!(tape.pointer, 2);
}

#[test]
fn get_mut_changes_a_cell_in_scope() {
    let mut s = Stack::new();
    s.push(Cell::Integer(1));
    s.push(Cell::Integer(2));
    if let Some(c) = s.get_mut(1) {
        *c = Cell::Integer(10);
    }
    assert_eq!(s.get(1), Some(&Cell::Integer(10)));
    s.start_stack();
    assert!(s.get_mut(0).is_none());
}

#[test]
fn run_block_returns_to_caller() {
    let mut pack = primitives_only("{ 4 5 * } 1");
    assert_eq!(pack.one_step().unwrap(), Step::Ran);
    let block = match top(&pack) {
        Cell::Block(b) => b,
        other => panic!("expected a block, got {:?}", other),
    };
    let before = pack.concat.pointer;
    assert_eq!(pack.run_block(&block, 100).unwrap(), Step::Ran);
    assert_eq!(pack.concat.pointer, before);
    assert_eq!(pack.ret.size(), 0);
    assert_eq!(top(&pack), Cell::Integer(20));
}

#[test]
fn run_block_reports_budget() {
    let mut pack = primitives_only("{ 4 5 * } 1");
    assert_eq!(pack.one_step().unwrap(), Step::Ran);
    let block = match top(&pack) {
        Cell::Block(b) => b,
        other => panic!("expected a block, got {:?}", other),
    };
    assert_eq!(pack.run_block(&block, 2).unwrap(), Step::Budget);
    assert_eq!(pack.ret.size(), 1);
}

#[test]
fn block_template_fills_last_placeholder_from_top() {
    let mut pack = primitives_only("1 2 { $ $ - } block exe");
    assert_eq!(run_all(&mut pack).unwrap(), Step::End);
    assert_eq!(pack.stack.size(), 1);
    assert_eq!(top(&pack), Cell::Integer(-1));
}

#[test]
fn failed_steps_leave_the_state_alone() {
    let mut pack = primitives_only("1 2 ( + )");
    assert_eq!(err_kind(run_all(&mut pack)), ErrorKind::StackUnderflow);
    assert_eq!(pack.stack.size(), 0);
    assert_eq!(pack.stack.end_stack(), Some(0));
    assert_eq!(pack.stack.size(), 2);
    assert_eq!(pack.stack.get(0), Some(&Cell::Integer(2)));
    assert_eq!(pack.stack.get(1), Some(&Cell::Integer(1)));

    let mut pack = primitives_only("7 { 1");
    assert_eq!(pack.one_step().unwrap(), Step::Ran);
    assert_eq!(err_kind(pack.one_step()), ErrorKind::UnterminatedBlock);
    assert_eq!(pack.concat.pointer, 2);
    assert_eq!(pack.stack.size(), 1);

    let mut pack = primitives_only("3 }");
    assert_eq!(err_kind(run_all(&mut pack)), ErrorKind::ReturnUnderflow);
    assert_eq!(top(&pack), Cell::Integer(3));
    assert_eq!(pack.concat.pointer, 2);

    let mut pack = primitives_only("2 3.0 +");
    assert_eq!(err_kind(run_all(&mut pack)), ErrorKind::TypeMismatch);
    assert_eq!(pack.stack.size(), 2);
    assert_eq!(top(&pack), Cell::Float("3.0".to_string()));
}

#[test]
fn next_cell_resumes_after_the_closing_quote() {
    let code = r"'a\'b\\c' x";
    let (cell, next) = runpack::next_cell(code.as_bytes(), 0);
    assert_eq!(cell, Some(Cell::String("a'b\\c".to_string())));
    assert_eq!(next, 9);
    let (cell, next) = runpack::next_cell(code.as_bytes(), next);
    assert_eq!(cell, Some(Cell::Word("x".to_string())));
    assert_eq!(next, code.len());
    assert_eq!(runpack::next_cell(code.as_bytes(), next), (None, code.len()));
}

#[test]
fn host_values_compare_by_type_name() {
    let mut pack = primitives_only("=");
    let a = Cell::Struct(runpack::StructRef { name: "map".to_string(), handle: 0 });
    let b = Cell::Struct(runpack::StructRef { name: "map".to_string(), handle: 1 });
    pack.stack.push(a);
    pack.stack.push(b);
    assert_eq!(run_all(&mut pack).unwrap(), Step::End);
    assert_eq!(top(&pack), Cell::Boolean(true));
}
