//! Tests for evaluation: operator precedence, loops, indexing, methods,
//! input handling, display, and the error cases.

use dabara::lexer::tokenize;
use dabara::parser::parse;
use dabara::interpreter::{Interpreter, Value};

/// Runs a program and returns the interpreter, failing the test on error.
fn run(source: &str) -> Interpreter {
    let tokens = tokenize(source).expect("Failed to tokenize");
    let program = parse(tokens).expect("Failed to parse");
    let mut interpreter = Interpreter::new();
    interpreter.execute(program).expect("Failed to execute");
    interpreter
}

/// Runs a program and returns the execution error it must produce.
fn run_err(source: &str) -> dabara::Error {
    let tokens = tokenize(source).expect("Failed to tokenize");
    let program = parse(tokens).expect("Failed to parse");
    let mut interpreter = Interpreter::new();
    interpreter.execute(program).expect_err("Expected a runtime error")
}

fn global_number(interpreter: &Interpreter, name: &str) -> i64 {
    match interpreter.get_variable(name) {
        Some(Value::Number(n)) => *n,
        other => panic!("Expected a number, found {:?}", other),
    }
}

fn global_string(interpreter: &Interpreter, name: &str) -> String {
    match interpreter.get_variable(name) {
        Some(Value::String(s)) => s.clone(),
        other => panic!("Expected a string, found {:?}", other),
    }
}

#[test]
fn test_precedence_mul_before_add() {
    let i = run("fara\n  naɗa a = 2 + 3 * 4\nƙare\n");
    assert_eq!(global_number(&i, "a"), 14);
}

#[test]
fn test_precedence_div_before_sub() {
    let i = run("fara\n  naɗa a = 20 - 8 / 2\nƙare\n");
    assert_eq!(global_number(&i, "a"), 16);
}

#[test]
fn test_precedence_parentheses() {
    let i = run("fara\n  naɗa a = (2 + 3) * 4\nƙare\n");
    assert_eq!(global_number(&i, "a"), 20);
}

#[test]
fn test_division_left_associative() {
    let i = run("fara\n  naɗa a = 20 / 4 / 2\nƙare\n");
    assert_eq!(global_number(&i, "a"), 2);
}

#[test]
fn test_precedence_combined() {
    let i = run("fara\n  naɗa a = 100 - 20 / 5 + 3 * 2\nƙare\n");
    assert_eq!(global_number(&i, "a"), 102);
}

#[test]
fn test_integer_division_truncates() {
    let i = run("fara\n  naɗa a = 7 / 2\n  naɗa b = 0 - 7\n  naɗa c = b / 2\nƙare\n");
    assert_eq!(global_number(&i, "a"), 3);
    assert_eq!(global_number(&i, "c"), -3);
}

#[test]
fn test_division_by_zero_is_error() {
    let e = run_err("fara\n  naɗa a = 10 / 0\nƙare\n");
    assert!(e.message().contains("raba da sifili"));
}

#[test]
fn test_string_concatenation() {
    let i = run("fara\n  naɗa s = \"Sannu \" + \"Duniya\"\nƙare\n");
    assert_eq!(global_string(&i, "s"), "Sannu Duniya");
}

#[test]
fn test_string_bool_concatenation() {
    let i = run("fara\n  naɗa s = \"ji: \" + gaskiya\n  naɗa t = karya + \"!\"\nƙare\n");
    assert_eq!(global_string(&i, "s"), "ji: gaskiya");
    assert_eq!(global_string(&i, "t"), "karya!");
}

#[test]
fn test_string_number_concatenation() {
    let i = run("fara\n  naɗa s = \"n = \" + 42\nƙare\n");
    assert_eq!(global_string(&i, "s"), "n = 42");
}

#[test]
fn test_negative_index_retrieves_last() {
    let i = run("fara\n  naɗa l = [10, 20, 30]\n  naɗa a = l[-1]\n  naɗa b = l[0]\nƙare\n");
    assert_eq!(global_number(&i, "a"), 30);
    assert_eq!(global_number(&i, "b"), 10);
}

#[test]
fn test_negative_index_out_of_bounds() {
    let e = run_err("fara\n  naɗa l = [10, 20, 30]\n  naɗa a = l[-4]\nƙare\n");
    assert!(e.message().contains("iyaka"));
}

#[test]
fn test_string_indexing() {
    let i = run("fara\n  naɗa s = \"abc\"\n  naɗa c = s[1]\n  naɗa d = s[-1]\nƙare\n");
    assert_eq!(global_string(&i, "c"), "b");
    assert_eq!(global_string(&i, "d"), "c");
}

#[test]
fn test_while_loop() {
    let i = run(
        "fara\n  naɗa n = 0\n  naɗa jimla = 0\n  yayinda n < 5 {\n    naɗa n = n + 1\n    naɗa jimla = jimla + n\n  }\nƙare\n",
    );
    assert_eq!(global_number(&i, "jimla"), 15);
}

#[test]
fn test_for_loop_over_list() {
    let i = run(
        "fara\n  naɗa jimla = 0\n  domin x cikin [1, 2, 3, 4] {\n    naɗa jimla = jimla + x\n  }\nƙare\n",
    );
    assert_eq!(global_number(&i, "jimla"), 10);
    assert_eq!(global_number(&i, "x"), 4);
}

#[test]
fn test_break_leaves_loop() {
    let i = run(
        "fara\n  naɗa n = 0\n  yayinda gaskiya {\n    naɗa n = n + 1\n    idan n == 3 {\n      tsaya\n    }\n  }\nƙare\n",
    );
    assert_eq!(global_number(&i, "n"), 3);
}

#[test]
fn test_continue_skips_iteration() {
    let i = run(
        "fara\n  naɗa jimla = 0\n  domin x cikin [1, 2, 3, 4] {\n    idan x == 2 {\n      cigaba\n    }\n    naɗa jimla = jimla + x\n  }\nƙare\n",
    );
    assert_eq!(global_number(&i, "jimla"), 8);
}

#[test]
fn test_inner_break_keeps_outer_loop() {
    let i = run(
        "fara\n  naɗa n = 0\n  domin x cikin [1, 2] {\n    yayinda gaskiya {\n      tsaya\n    }\n    naɗa n = n + 1\n  }\nƙare\n",
    );
    assert_eq!(global_number(&i, "n"), 2);
}

#[test]
fn test_elseif_chain() {
    let i = run(
        "fara\n  naɗa a = 2\n  idan a == 1 {\n    naɗa r = 10\n  } ammaina a == 2 {\n    naɗa r = 20\n  } amma {\n    naɗa r = 30\n  }\nƙare\n",
    );
    assert_eq!(global_number(&i, "r"), 20);
}

#[test]
fn test_unary_operators() {
    let i = run("fara\n  naɗa a = -5\n  naɗa b = 3 + -2\nƙare\n");
    assert_eq!(global_number(&i, "a"), -5);
    assert_eq!(global_number(&i, "b"), 1);
}

#[test]
fn test_string_methods() {
    let i = run(
        "fara\n  naɗa a = \"Sannu\".tsawo()\n  naɗa b = \"abc\".babba()\n  naɗa c = \"ABC\".karami()\n  naɗa d = \"duniya\".yanki(1, 4)\nƙare\n",
    );
    assert_eq!(global_number(&i, "a"), 5);
    assert_eq!(global_string(&i, "b"), "ABC");
    assert_eq!(global_string(&i, "c"), "abc");
    assert_eq!(global_string(&i, "d"), "uni");
}

#[test]
fn test_split_and_join() {
    let i = run(
        "fara\n  naɗa l = \"a,b,c\".tsaga(\",\")\n  naɗa n = l.tsawo()\n  naɗa p = l[0]\n  naɗa s = [1, 2, 3].hada(\"-\")\nƙare\n",
    );
    assert_eq!(global_number(&i, "n"), 3);
    assert_eq!(global_string(&i, "p"), "a");
    assert_eq!(global_string(&i, "s"), "1-2-3");
}

#[test]
fn test_list_methods() {
    let i = run(
        "fara\n  naɗa l = [1, 2]\n  naɗa m = l.saka(3)\n  naɗa a = m[-1]\n  naɗa k = m.ciro()\n  naɗa b = k.tsawo()\nƙare\n",
    );
    assert_eq!(global_number(&i, "a"), 3);
    assert_eq!(global_number(&i, "b"), 2);
}

#[test]
fn test_pop_empty_list_is_error() {
    let e = run_err("fara\n  naɗa l = [1]\n  naɗa k = l.ciro()\n  naɗa m = k.ciro()\nƙare\n");
    assert!(e.message().contains("ciro"));
}

#[test]
fn test_undefined_variable_names_it() {
    let e = run_err("fara\n  rubuta bashi\nƙare\n");
    assert!(e.message().contains("bashi"));
}

#[test]
fn test_arity_mismatch_names_both_counts() {
    let e = run_err(
        "fara\n  aiki biyu(a, b) {\n    mayar a\n  }\n  naɗa r = biyu(1)\nƙare\n",
    );
    let msg = e.message();
    assert!(msg.contains("biyu"));
    assert!(msg.contains("2"));
    assert!(msg.contains("1"));
}

#[test]
fn test_unknown_function_is_error() {
    let e = run_err("fara\n  naɗa r = babu(1)\nƙare\n");
    assert!(e.message().contains("babu"));
}

#[test]
fn test_type_mismatch_names_operator_and_types() {
    let e = run_err("fara\n  naɗa r = gaskiya rage \"abc\"\nƙare\n");
    let msg = e.message();
    assert!(msg.contains("rage"));
    assert!(msg.contains("gaskiya ko karya"));
    assert!(msg.contains("jimla"));
}

#[test]
fn test_for_over_non_list_is_error() {
    let e = run_err("fara\n  domin x cikin 5 {\n    rubuta x\n  }\nƙare\n");
    assert!(e.message().contains("jerin abu"));
}

#[test]
fn test_print_output_lines() {
    let i = run("fara\n  rubuta 42\n  rubuta \"Sannu\"\n  rubuta [1, 2]\n  rubuta gaskiya\nƙare\n");
    let lines = i.output_lines();
    assert_eq!(lines.len(), 4);
    assert_eq!(lines[0], "42");
    assert_eq!(lines[1], "Sannu");
    assert_eq!(lines[2], "[1, 2]");
    assert_eq!(lines[3], "gaskiya");
}

#[test]
fn test_value_display_forms() {
    assert_eq!(Value::Number(-7).to_string(), "-7");
    assert_eq!(Value::Number(i64::MIN).to_string(), "-9223372036854775808");
    assert_eq!(Value::Boolean(true).to_string(), "gaskiya");
    assert_eq!(
        Value::List(vec![Value::Number(1), Value::String("a".to_string())]).to_string(),
        "[1, a]"
    );
    assert_eq!(Value::Number(5).kind_name(), "lambar");
}

#[test]
fn test_input_parses_number_then_string() {
    let tokens = tokenize("fara\n  naɗa a = karɓa\n  naɗa b = karɓa\n  naɗa c = karɓa\nƙare\n")
        .expect("Failed to tokenize");
    let program = parse(tokens).expect("Failed to parse");
    let mut interpreter = Interpreter::new();
    interpreter.push_input(" 42 ".to_string());
    interpreter.push_input("-7".to_string());
    interpreter.push_input("Ahmad".to_string());
    interpreter.execute(program).expect("Failed to execute");
    assert_eq!(global_number(&interpreter, "a"), 42);
    assert_eq!(global_number(&interpreter, "b"), -7);
    assert_eq!(global_string(&interpreter, "c"), "Ahmad");
    assert_eq!(interpreter.output_lines()[0], "Rubuta abu: ");
}

#[test]
fn test_input_exhausted_is_error() {
    let tokens = tokenize("fara\n  naɗa a = karɓa\nƙare\n").expect("Failed to tokenize");
    let program = parse(tokens).expect("Failed to parse");
    let mut interpreter = Interpreter::new();
    let e = interpreter.execute(program).expect_err("Expected a runtime error");
    assert!(e.message().contains("shigarwa"));
}

#[test]
fn test_tokenize_twice_is_identical() {
    let source = "fara\n  naɗa a = 1 + 2\n  rubuta a\nƙare\n";
    let t1 = tokenize(source).expect("Failed to tokenize");
    let t2 = tokenize(source).expect("Failed to tokenize");
    assert_eq!(t1, t2);
}

#[test]
fn test_parse_twice_is_identical() {
    let source = "fara\n  aiki f(a) {\n    mayar a + 1\n  }\n  naɗa r = f(1)\nƙare\n";
    let a1 = parse(tokenize(source).unwrap()).expect("Failed to parse");
    let a2 = parse(tokenize(source).unwrap()).expect("Failed to parse");
    assert_eq!(format!("{:?}", a1), format!("{:?}", a2));
}

#[test]
fn test_mixed_keyword_spellings() {
    let i = run("fara\n  nada a = 1 kara 2\n  naɗa b = a ƙara 3\nkare\n");
    assert_eq!(global_number(&i, "a"), 3);
    assert_eq!(global_number(&i, "b"), 6);
}

#[test]
fn test_clear_variables_keeps_functions() {
    let mut i = run("fara\n  naɗa a = 1\nƙare\n");
    assert!(i.get_variable("a").is_some());
    i.clear_variables();
    assert!(i.get_variable("a").is_none());
}

#[test]
fn test_stdlib_registers_stub_names() {
    let mut interpreter = Interpreter::new();
    dabara::stdlib::register_stdlib(&mut interpreter).expect("Failed to register");
    // A registered stub exists: calling it with arguments is an arity error
    // naming the stub, not an unknown-function error.
    let tokens = tokenize("fara\n  naɗa r = abs(5)\nƙare\n").expect("Failed to tokenize");
    let program = parse(tokens).expect("Failed to parse");
    let e = interpreter.execute(program).expect_err("Expected a runtime error");
    assert!(e.message().contains("tana bukata"));
}

#[test]
fn test_comparison_operators() {
    let i = run(
        "fara\n  naɗa a = 5 > 3\n  naɗa b = 5 <= 4\n  naɗa c = \"x\" == \"x\"\n  naɗa d = 1 != 2\nƙare\n",
    );
    match i.get_variable("a") {
        Some(Value::Boolean(true)) => {},
        other => panic!("Expected true, found {:?}", other),
    }
    match i.get_variable("b") {
        Some(Value::Boolean(false)) => {},
        other => panic!("Expected false, found {:?}", other),
    }
    match i.get_variable("c") {
        Some(Value::Boolean(true)) => {},
        other => panic!("Expected true, found {:?}", other),
    }
    match i.get_variable("d") {
        Some(Value::Boolean(true)) => {},
        other => panic!("Expected true, found {:?}", other),
    }
}

#[test]
fn test_truthiness_in_conditions() {
    let i = run(
        "fara\n  naɗa r = 0\n  idan 5 {\n    naɗa r = r + 1\n  }\n  idan \"\" {\n    naɗa r = r + 10\n  }\n  idan [1] {\n    naɗa r = r + 100\n  }\nƙare\n",
    );
    assert_eq!(global_number(&i, "r"), 101);
}

#[test]
fn test_top_level_return_is_no_op() {
    let i = run("fara\n  naɗa a = 1\n  mayar 99\n  naɗa b = 2\nƙare\n");
    assert_eq!(global_number(&i, "a"), 1);
    assert_eq!(global_number(&i, "b"), 2);
}

#[test]
fn test_wrapping_arithmetic() {
    let i = run("fara\n  naɗa a = 9223372036854775807 + 1\nƙare\n");
    assert_eq!(global_number(&i, "a"), i64::MIN);
}

#[test]
fn test_error_keeps_prior_side_effects() {
    let tokens = tokenize("fara\n  rubuta \"kafin\"\n  naɗa a = 1 / 0\nƙare\n")
        .expect("Failed to tokenize");
    let program = parse(tokens).expect("Failed to parse");
    let mut interpreter = Interpreter::new();
    assert!(interpreter.execute(program).is_err());
    assert_eq!(interpreter.output_lines().len(), 1);
    assert_eq!(interpreter.output_lines()[0], "kafin");
}
