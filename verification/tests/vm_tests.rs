use marwood::cell::Cell;
use marwood::compile::{decompile, decompile_text};
use marwood::vcell::{OpCode, VCell};
use marwood::vm::{Error, Vm};

fn sym(s: &str) -> Cell {
    Cell::symbol(s)
}

fn num(n: i64) -> Cell {
    Cell::Number(n)
}

fn list(items: Vec<Cell>) -> Cell {
    Cell::new_list(items)
}

/// `(quote DATUM)`
fn quoted(datum: Cell) -> Cell {
    list(vec![sym("quote"), datum])
}

#[test]
fn compile_number_yields_quote_ptr_halt() {
    let mut vm = Vm::new();
    let bc = vm.compile(&num(42)).unwrap();
    assert_eq!(bc.len(), 3);
    assert_eq!(bc[0], VCell::OpCode(OpCode::Quote));
    assert!(matches!(bc[1], VCell::Ptr(_)));
    assert_eq!(bc[2], VCell::OpCode(OpCode::Halt));
}

#[test]
fn eval_number_returns_the_number() {
    let mut vm = Vm::new();
    assert_eq!(vm.eval(&num(42)), Ok(num(42)));
}

#[test]
fn compile_quote_yields_quote_ptr_halt() {
    let mut vm = Vm::new();
    let bc = vm.compile(&quoted(sym("x"))).unwrap();
    assert_eq!(bc.len(), 3);
    assert_eq!(bc[0], VCell::OpCode(OpCode::Quote));
    assert!(matches!(bc[1], VCell::Ptr(_)));
    assert_eq!(bc[2], VCell::OpCode(OpCode::Halt));
}

#[test]
fn eval_quote_returns_the_datum() {
    let mut vm = Vm::new();
    assert_eq!(vm.eval(&quoted(sym("x"))), Ok(sym("x")));
    assert_eq!(
        vm.eval(&quoted(list(vec![num(1), num(2)]))),
        Ok(list(vec![num(1), num(2)]))
    );
}

#[test]
fn car_and_cdr_of_a_quoted_pair() {
    let mut vm = Vm::new();
    let pair = Cell::new_pair(sym("a"), sym("b"));
    assert_eq!(
        vm.eval(&list(vec![sym("car"), quoted(pair)])),
        Ok(sym("a"))
    );
    let pair = Cell::new_pair(sym("a"), sym("b"));
    assert_eq!(
        vm.eval(&list(vec![sym("cdr"), quoted(pair)])),
        Ok(sym("b"))
    );
}

#[test]
fn car_of_a_number_compiles_but_fails_at_runtime() {
    let mut vm = Vm::new();
    let expr = list(vec![sym("car"), num(5)]);
    assert!(vm.compile(&expr).is_ok());
    let mut vm = Vm::new();
    let result = vm.eval(&expr);
    assert!(matches!(result, Err(Error::ExpectedType(_, _))));
    assert_eq!(
        result.unwrap_err().to_text(),
        "expected pair, but found fixednum"
    );
}

#[test]
fn unknown_procedure_is_rejected() {
    let mut vm = Vm::new();
    let r = vm.eval(&list(vec![sym("foo"), num(1)]));
    assert!(matches!(r, Err(Error::UnknownProcedure(_))));
    let r = vm.eval(&Cell::Bool(true));
    assert!(matches!(r, Err(Error::UnknownProcedure(_))));
}

#[test]
fn car_without_argument_is_rejected() {
    let mut vm = Vm::new();
    let r = vm.eval(&list(vec![sym("car")]));
    assert!(matches!(r, Err(Error::ExpectedPairButFound(_))));
}

#[test]
fn nested_car_cdr_chain() {
    let mut vm = Vm::new();
    // (car (cdr (quote (1 2 3)))) => 2
    let expr = list(vec![
        sym("car"),
        list(vec![
            sym("cdr"),
            quoted(list(vec![num(1), num(2), num(3)])),
        ]),
    ]);
    assert_eq!(vm.eval(&expr), Ok(num(2)));
}

#[test]
fn decompile_lists_instructions() {
    let mut vm = Vm::new();
    let bc = vm.compile(&num(7)).unwrap();
    let lines = decompile(&bc);
    assert_eq!(lines.len(), 2);
    assert_eq!(lines[0].0, "QUOTE");
    assert_eq!(lines[0].1, vec!["$0".to_string()]);
    assert_eq!(lines[1].0, "HALT");
    assert_eq!(lines[1].1, Vec::<String>::new());
}

#[test]
fn decompile_text_renders_one_line_per_instruction() {
    let mut vm = Vm::new();
    let bc = vm.compile(&num(7)).unwrap();
    assert_eq!(decompile_text(&bc), "QUOTE $0\nHALT \n");
}

#[test]
fn load_prelude_evaluates_each_form() {
    let mut vm = Vm::new();
    assert_eq!(vm.load_prelude(&vec![num(1), num(2), num(3)]), Ok(()));
    let mut vm = Vm::new();
    assert!(vm
        .load_prelude(&vec![num(1), list(vec![sym("nope")])])
        .is_err());
}

#[test]
fn default_vm_is_fresh() {
    let mut vm = Vm::default();
    assert_eq!(vm.eval(&num(9)), Ok(num(9)));
}

#[test]
fn error_messages_are_single_lines() {
    assert_eq!(
        Error::UnquotedNil.to_text(),
        "invalid syntax: () must be quoted"
    );
    assert_eq!(
        Error::UnknownProcedure("foo".to_string()).to_text(),
        "unknown procedure foo"
    );
    assert_eq!(
        Error::ExpectedPairButFound("()".to_string()).to_text(),
        "expected pair, but found ()"
    );
    assert_eq!(Error::InvalidStackIndex(12).to_text(), "invalid stack index: 12");
}

#[test]
fn cell_text_forms() {
    assert_eq!(num(-42).to_text(), "-42");
    assert_eq!(Cell::Bool(true).to_text(), "#t");
    assert_eq!(Cell::Nil.to_text(), "()");
    assert_eq!(
        list(vec![sym("a"), num(1)]).to_text(),
        "(a 1)"
    );
    assert_eq!(
        Cell::new_pair(sym("a"), sym("b")).to_text(),
        "(a . b)"
    );
    assert_eq!(
        Cell::new_pair(num(1), Cell::new_pair(num(2), num(3))).to_text(),
        "(1 2 . 3)"
    );
}
