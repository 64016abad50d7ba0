use drython::runner::operation_runner::{Host, run_operation, handle_token_type, display_of, settle_call};
use drython::runner::token_impl::{FloatTask, Num, ArithOp, CmpOp, BinOp, Outcome, try_binary, settle, int_arith_of, run_operation_by_type, operation_defined_of};
use drython::runner::vars::{Var, Vars};
use drython::runner::internal_function::{handle_scope, assign, loop_step, call_arguments, call_line_end, single_line_after, Run, LineEnd};
use drython::runner::function::{call, call_internal, run_setup, call_function, find_function, report_call_result, call_by_name, Registered};
use drython::runner::modifier_runner::handle_variable_modifiers;
use drython::external::{Library, IsToken, expect, expect_collection, get_lib};
use drython::external::collection::{add_collection, remove_collection};
use drython::parser::operation_parser::parse_operation;
use drython::types::{Parser, Token, VariableModifier, ExpressionList};
use drython::error::{ErrorManager, ErrorRecord, DrythonError, ParseError, RuntimeError, ScriptTypeError};

fn num(n: &Num) -> f32 {
    match n {
        Num::Int(i) => *i as f32,
        Num::Float(t) => t.parse::<f32>().unwrap(),
        Num::Bool(b) => (*b as i32) as f32,
    }
}

struct TestHost {
    changed: Vec<String>,
    printed: Vec<String>,
    list: Option<std::rc::Rc<ExpressionList>>,
    globals: Vars,
}

impl TestHost {
    fn new() -> TestHost {
        TestHost { changed: vec![], printed: vec![], list: None, globals: Vars::new() }
    }
}

impl Host for TestHost {
    fn call_function(&mut self, name: &String, args: Vec<Token>) -> Result<Option<Token>, (String, usize)> {
        if name == "double" {
            if let Some(Token::Int(i)) = args.get(0) {
                return Ok(Some(Token::Int(i * 2)));
            }
            return Err(("double needs an integer".to_string(), 0));
        }
        if name == "print" {
            let text = match args.get(0) {
                Some(t) => display_of(self, t),
                None => String::new(),
            };
            self.printed.push(text);
            return Ok(None);
        }
        match self.list.clone() {
            Some(list) => {
                let globals = self.globals.duplicate();
                let (r, new_globals) = call(self, &globals, &list, name.as_str(), args, 0);
                if let Some(g) = new_globals {
                    self.globals = g;
                }
                r
            },
            None => Err((format!("No function called '{}' exists.", name), 0)),
        }
    }

    fn compute(&mut self, task: &FloatTask) -> Token {
        match task {
            FloatTask::Arith(op, a, b) => {
                let (x, y) = (num(a), num(b));
                let v = match op {
                    ArithOp::Add => x + y,
                    ArithOp::Subtract => x - y,
                    ArithOp::Multiply => x * y,
                    ArithOp::Divide => x / y,
                    ArithOp::Modulos => x % y,
                };
                Token::Float(v.to_string())
            },
            FloatTask::Compare(op, a, b) => {
                let (x, y) = (num(a), num(b));
                Token::Bool(match op {
                    CmpOp::Eq => x == y,
                    CmpOp::Gte => x >= y,
                    CmpOp::Gt => x > y,
                })
            },
            FloatTask::Logic(and, a, b) => {
                let (x, y) = (num(a) != 0.0, num(b) != 0.0);
                Token::Bool(if *and { x && y } else { x || y })
            },
            FloatTask::NonZero(a) => Token::Bool(num(a) != 0.0),
            FloatTask::NonZeroIs(a, b) => Token::Bool((num(a) != 0.0) == *b),
            FloatTask::Concat(s, a) => Token::String(format!("{}{}", s, num(a))),
            FloatTask::TextIs(s, a) => Token::Bool(*s == num(a).to_string()),
        }
    }

    fn float_text(&mut self, text: &String) -> String {
        text.parse::<f32>().unwrap().to_string()
    }

    fn fail(&mut self, message: &str) {
        panic!("{}", message);
    }

    fn mark_changed(&mut self, name: &String) {
        self.changed.push(name.clone());
    }

    fn register_library(&mut self, _library: Library) -> Vec<(String, Token)> {
        vec![("pi_ish".to_string(), Token::Int(3))]
    }
}

fn eval(text: &str, vars: &Vars) -> Result<Option<Token>, String> {
    let ops = parse_operation(text).unwrap();
    let mut host = TestHost::new();
    run_operation(&mut host, &ops, vars)
}

fn var(value: Token, external: bool) -> Var {
    Var { value, external, modifiers: vec![] }
}

#[test]
fn evaluates_precedence() {
    assert!(matches!(eval("1+2*3", &Vars::new()), Ok(Some(Token::Int(7)))));
}

#[test]
fn evaluates_left_to_right_subtraction() {
    assert!(matches!(eval("10-3-2", &Vars::new()), Ok(Some(Token::Int(5)))));
}

#[test]
fn evaluates_parentheses() {
    assert!(matches!(eval("(1+2)*3", &Vars::new()), Ok(Some(Token::Int(9)))));
}

#[test]
fn parentheses_do_not_change_a_value() {
    assert!(matches!(eval("((7))", &Vars::new()), Ok(Some(Token::Int(7)))));
    assert!(matches!(eval("(2)*(3)", &Vars::new()), Ok(Some(Token::Int(6)))));
    assert_eq!(eval("(y)", &Vars::new()).unwrap_err(), "Could not find a variable by the name: y");
}

#[test]
fn evaluates_truncating_division_and_remainder() {
    assert!(matches!(eval("7/2", &Vars::new()), Ok(Some(Token::Int(3)))));
    assert!(matches!(eval("0-7%2", &Vars::new()), Ok(Some(Token::Int(-1)))));
}

#[test]
fn evaluates_variables() {
    let mut vars = Vars::new();
    vars.insert("x".to_string(), var(Token::Int(4), false));
    assert!(matches!(eval("x*x", &vars), Ok(Some(Token::Int(16)))));
}

#[test]
fn missing_variable_is_an_error() {
    assert_eq!(eval("y+1", &Vars::new()).unwrap_err(), "Could not find a variable by the name: y");
}

#[test]
fn evaluates_string_concatenation() {
    assert!(matches!(eval("\"a\"+1", &Vars::new()), Ok(Some(Token::String(s))) if s == "a1"));
    assert!(matches!(eval("1+\"a\"", &Vars::new()), Ok(Some(Token::String(s))) if s == "a1"));
}

#[test]
fn evaluates_comparisons() {
    assert!(matches!(eval("2>=3", &Vars::new()), Ok(Some(Token::Bool(false)))));
    assert!(matches!(eval("2<3", &Vars::new()), Ok(Some(Token::Bool(true)))));
    assert!(matches!(eval("2!=2", &Vars::new()), Ok(Some(Token::Bool(false)))));
    assert!(matches!(eval("\"1\"==1", &Vars::new()), Ok(Some(Token::Bool(true)))));
}

#[test]
fn evaluates_floats_through_the_host() {
    assert!(matches!(eval("1.5+1", &Vars::new()), Ok(Some(Token::Float(f))) if f == "2.5"));
}

#[test]
fn operator_that_does_not_apply() {
    assert_eq!(eval("\"a\"-1", &Vars::new()).unwrap_err(), "Cannot apply operation '-' to '\"a\"' and '1'.");
}

#[test]
fn collection_with_number() {
    let mut vars = Vars::new();
    vars.insert("c".to_string(), var(Token::Collection(vec![Token::Int(1), Token::Int(2)]), false));
    match eval("c*10", &vars) {
        Ok(Some(Token::Collection(items))) => {
            assert_eq!(items.len(), 2);
            assert!(matches!(items[0], Token::Int(10)));
            assert!(matches!(items[1], Token::Int(20)));
        },
        other => panic!("unexpected {:?}", other),
    }
}

#[test]
fn collection_index_accessor() {
    let mut vars = Vars::new();
    vars.insert("c".to_string(), var(Token::Collection(vec![Token::Int(5), Token::Int(6)]), false));
    assert!(matches!(eval("c.1", &vars), Ok(Some(Token::Int(6)))));
}

#[test]
fn string_index_accessor() {
    let mut vars = Vars::new();
    vars.insert("s".to_string(), var(Token::String("hey".to_string()), false));
    assert!(matches!(eval("s.1", &vars), Ok(Some(Token::String(t))) if t == "e"));
    assert_eq!(eval("s.9", &vars).unwrap_err(), "Tried to access a string index out of range.");
}

#[test]
fn calls_go_to_the_host() {
    assert!(matches!(eval("double(21)", &Vars::new()), Ok(Some(Token::Int(42)))));
}

#[test]
fn empty_operation_fails() {
    let mut host = TestHost::new();
    assert_eq!(run_operation(&mut host, &vec![], &Vars::new()).unwrap_err(), "Failed to parse operation. Try breaking down the statement into steps.");
}

#[test]
fn integer_arithmetic_and_its_limits() {
    assert_eq!(int_arith_of(ArithOp::Add, 2, 3), Some(5));
    assert_eq!(int_arith_of(ArithOp::Add, i32::MAX, 1), None);
    assert_eq!(int_arith_of(ArithOp::Divide, -7, 2), Some(-3));
    assert_eq!(int_arith_of(ArithOp::Modulos, -7, 2), Some(-1));
    assert_eq!(int_arith_of(ArithOp::Divide, 1, 0), None);
    assert_eq!(int_arith_of(ArithOp::Modulos, i32::MIN, -1), None);
}

#[test]
fn operator_symbols() {
    assert!(operation_defined_of(&Token::Int(1), &Token::Int(2), "+"));
    assert!(!operation_defined_of(&Token::Int(i32::MAX), &Token::Int(1), "+"));
    assert!(run_operation_by_type(&Token::Int(1), &Token::Int(2), "?").is_none());
    let o = run_operation_by_type(&Token::Int(1), &Token::Int(2), "<=").unwrap();
    assert!(matches!(settle(&o), Some(Token::Bool(true))));
}

#[test]
fn token_methods() {
    assert!(matches!(settle(&Token::Int(2).add(&Token::Bool(true))), Some(Token::Int(3))));
    assert!(matches!(settle(&Token::Char('a').add(&Token::Char('b'))), Some(Token::String(s)) if s == "ab"));
    assert!(matches!(settle(&Token::Int(0).or(&Token::Bool(true))), Some(Token::Bool(true))));
    assert!(matches!(settle(&Token::Int(2).and(&Token::Int(0))), Some(Token::Bool(false))));
    assert!(matches!(settle(&Token::Int(3).check()), Some(Token::Bool(true))));
    assert!(matches!(settle(&Token::Int(3).compare_lte(&Token::Int(3))), Some(Token::Bool(true))));
    assert!(matches!(settle(&Token::Int(3).compare_gt(&Token::Int(3))), Some(Token::Bool(false))));
    assert!(matches!(settle(&Token::Null.compare_eq(&Token::Int(1))), None));
    assert!(matches!(settle(&Token::Int(5).subtract(&Token::Int(7))), Some(Token::Int(-2))));
    assert!(matches!(settle(&Token::Int(5).multiply(&Token::Int(7))), Some(Token::Int(35))));
    assert!(matches!(settle(&Token::Int(7).divide(&Token::Int(2))), Some(Token::Int(3))));
    assert!(matches!(settle(&Token::Int(7).modulos(&Token::Int(2))), Some(Token::Int(1))));
    assert!(matches!(settle(&Token::Int(7).compare_neq(&Token::Int(2))), Some(Token::Bool(true))));
    assert!(matches!(settle(&Token::Int(7).compare_lt(&Token::Int(2))), Some(Token::Bool(false))));
    assert!(matches!(settle(&Token::Int(7).compare_gte(&Token::Int(2))), Some(Token::Bool(true))));
}

#[test]
fn collections_of_unequal_length() {
    let a = Token::Collection(vec![Token::Int(1)]);
    let b = Token::Collection(vec![Token::Int(1), Token::Int(2)]);
    assert!(matches!(settle(&try_binary(BinOp::Add, &a, &b).unwrap()), Some(Token::Null)));
    assert!(matches!(settle(&try_binary(BinOp::Eq, &a, &b).unwrap()), Some(Token::Bool(false))));
}

#[test]
fn collections_pairwise() {
    let a = Token::Collection(vec![Token::Int(1), Token::Int(2)]);
    let b = Token::Collection(vec![Token::Int(10), Token::Int(20)]);
    match settle(&try_binary(BinOp::Add, &a, &b).unwrap()) {
        Some(Token::Collection(items)) => {
            assert!(matches!(items[0], Token::Int(11)));
            assert!(matches!(items[1], Token::Int(22)));
        },
        other => panic!("unexpected {:?}", other),
    }
    assert!(matches!(settle(&try_binary(BinOp::Eq, &a, &a).unwrap()), Some(Token::Bool(true))));
}

#[test]
fn float_outcomes_need_the_host() {
    let o = Token::Float("1.5".to_string()).add(&Token::Int(1));
    assert!(matches!(o, Outcome::Float(FloatTask::Arith(ArithOp::Add, Num::Int(1), Num::Float(_)))));
}

#[test]
fn variants() {
    assert!(Token::Int(1).variant_equal(&Token::Int(9)));
    assert!(!Token::Int(1).variant_equal(&Token::Bool(true)));
    let a = Token::Collection(vec![Token::Int(1), Token::Int(2)]);
    let b = Token::Collection(vec![Token::Int(3), Token::Int(4)]);
    let c = Token::Collection(vec![Token::Int(3), Token::Bool(true)]);
    assert!(a.variant_equal(&b));
    assert!(!a.variant_equal(&c));
}

#[test]
fn display_of_values() {
    let mut host = TestHost::new();
    assert_eq!(display_of(&mut host, &Token::String("a".to_string())), "\"a\"");
    assert_eq!(display_of(&mut host, &Token::Char('c')), "'c'");
    assert_eq!(display_of(&mut host, &Token::Collection(vec![Token::Int(1), Token::Bool(true)])), "[1,true]");
    assert_eq!(display_of(&mut host, &Token::Collection(vec![])), "]");
    assert_eq!(display_of(&mut host, &Token::Int(-12)), "-12");
}

#[test]
fn vars_read_after_write() {
    let mut vars = Vars::new();
    vars.insert("a".to_string(), var(Token::Int(1), false));
    vars.insert("b".to_string(), var(Token::Int(2), true));
    vars.insert("a".to_string(), var(Token::Int(3), false));
    assert!(matches!(vars.get("a").unwrap().value, Token::Int(3)));
    assert!(vars.get("b").unwrap().external);
    vars.remove("a");
    assert!(!vars.contains("a"));
    assert!(vars.contains("b"));
    assert_eq!(vars.names(), vec!["b".to_string()]);
}

#[test]
fn assign_keeps_the_kind_of_external_variables() {
    let mut vars = Vars::new();
    vars.insert("e".to_string(), var(Token::Int(1), true));
    let (new_local, external) = assign(&mut vars, &"e".to_string(), Token::Bool(true));
    assert!(!new_local && external);
    assert!(matches!(vars.get("e").unwrap().value, Token::Int(1)));
    let _ = assign(&mut vars, &"e".to_string(), Token::Int(5));
    assert!(matches!(vars.get("e").unwrap().value, Token::Int(5)));
    let (new_local, external) = assign(&mut vars, &"n".to_string(), Token::Bool(true));
    assert!(new_local && !external);
}

#[test]
fn loop_results() {
    assert!(matches!(loop_step(Ok(Some(Token::Break))), Some(Ok(None))));
    assert!(matches!(loop_step(Ok(Some(Token::Int(1)))), Some(Ok(Some(Token::Int(1))))));
    assert!(loop_step(Ok(None)).is_none());
    assert!(loop_step(Err(("e".to_string(), 1))).is_none());
}

fn script(source: &str) -> (TestHost, std::rc::Rc<ExpressionList>, ErrorManager) {
    let mut errors = ErrorManager::new();
    let parser = Parser::parse_source("t.dry", source, &mut errors).unwrap();
    let list = std::rc::Rc::new(parser.global_expressions);
    let mut host = TestHost::new();
    host.list = Some(list.clone());
    let mut globals = Vars::new();
    run_setup(&mut host, &list, &mut globals, &mut errors);
    host.globals = globals;
    (host, list, errors)
}

#[test]
fn runs_a_function() {
    let (mut host, _list, mut errors) = script("System\nx = 2\nmain():\n  y = x * 5\n  return y + 1\nend\n");
    let r = call_function(&mut host, &"main".to_string(), vec![], &mut errors);
    assert!(matches!(r, Some(Token::Int(11))));
    assert_eq!(errors.errors.len(), 0);
    assert!(!host.globals.contains("y"));
}

#[test]
fn only_the_if_of_a_chain_holds_a_place_in_the_order() {
    let src = "System\nsign(n):\n  if(n>0):\n    return 1\n  elif(n<0):\n    return 0-1\n  else:\n    return 0\n  end\nend\n";
    let (mut host, list, mut errors) = script(src);
    let f = &list.internal_expressions[0].0;
    assert_eq!(f.internal_expressions.len(), 3);
    assert_eq!(f.expression_order.len(), 1);
    assert!(matches!(call_function(&mut host, &"sign".to_string(), vec![Token::Int(5)], &mut errors), Some(Token::Int(1))));
    assert!(call_function(&mut host, &"sign".to_string(), vec![Token::Int(-5)], &mut errors).is_none());
    assert!(call_function(&mut host, &"sign".to_string(), vec![Token::Int(0)], &mut errors).is_none());
    assert_eq!(errors.errors.len(), 0);
}

#[test]
fn runs_a_loop_until_return() {
    let src = "System\ncount():\n  i = 0\n  loop:\n    i = i + 1\n    if(i>=4):\n      return i\n    end\n  end\nend\n";
    let (mut host, _list, mut errors) = script(src);
    let r = call_function(&mut host, &"count".to_string(), vec![], &mut errors);
    assert!(matches!(r, Some(Token::Int(4))), "{:?} {:?}", r, errors.errors.iter().map(|e| e.display()).collect::<Vec<_>>());
}

#[test]
fn break_in_a_loop_body_ends_it() {
    let src = "System\nonce():\n  n = 0\n  loop:\n    n = n + 1\n    break\n  end\n  return n\nend\n";
    let (mut host, _list, mut errors) = script(src);
    assert!(matches!(call_function(&mut host, &"once".to_string(), vec![], &mut errors), Some(Token::Int(1))));
}

#[test]
fn break_outside_a_loop_body_is_reported() {
    let mut errors = ErrorManager::new();
    let _ = Parser::parse_source("t.dry", "System
f():
  if(true):
    break
  end
end
", &mut errors).unwrap();
    assert_eq!(errors.errors.len(), 1);
    assert_eq!(errors.errors[0].display(), "Drython Parse Error: Line [4] - Break statement used outside loop.");
}

#[test]
fn calls_between_functions() {
    let src = "System\ntwice(a):\n  return a*2\nend\nmain():\n  return twice(4)+1\nend\n";
    let (mut host, _list, mut errors) = script(src);
    assert!(matches!(call_function(&mut host, &"main".to_string(), vec![], &mut errors), Some(Token::Int(9))));
}

#[test]
fn calls_print() {
    let src = "System\nmain():\n  print(\"hi\")\nend\n";
    let (mut host, _list, mut errors) = script(src);
    let _ = call_function(&mut host, &"main".to_string(), vec![], &mut errors);
    assert_eq!(host.printed, vec!["\"hi\"".to_string()]);
}

#[test]
fn a_call_line_fails_on_its_first_failing_argument() {
    let mut errors = ErrorManager::new();
    let parser = Parser::parse_source("t.dry", "System\nf():\n  print(1, nope, 2)\nend\n", &mut errors).unwrap();
    let f = &parser.global_expressions.internal_expressions[0].0;
    let mut host = TestHost::new();
    let mut vars = Vars::new();
    let r = handle_scope(&mut host, f, &mut vars, false);
    assert_eq!(r.unwrap_err(), ("Could not find a variable by the name: nope".to_string(), 2));
    assert!(host.printed.is_empty());
}

#[test]
fn call_arguments_in_order() {
    let mut host = TestHost::new();
    let mut vars = Vars::new();
    vars.insert("x".to_string(), var(Token::Int(5), false));
    let ops = vec![parse_operation("1+1").unwrap(), parse_operation("x").unwrap()];
    let args = call_arguments(&mut host, &ops, &vars).unwrap();
    assert!(matches!(args.as_slice(), [Token::Int(2), Token::Int(5)]));
    let bad = vec![parse_operation("y").unwrap(), parse_operation("z").unwrap()];
    assert_eq!(call_arguments(&mut host, &bad, &vars).unwrap_err(), "Could not find a variable by the name: y");
    assert!(call_arguments(&mut host, &vec![], &vars).unwrap().is_empty());
}

#[test]
fn reports_a_failed_call_under_the_function_name() {
    let mut errors = ErrorManager::new();
    let name = "f".to_string();
    assert!(matches!(report_call_result(&name, Ok(Some(Token::Int(3))), &mut errors), Some(Token::Int(3))));
    assert_eq!(errors.errors.len(), 0);
    assert!(report_call_result(&name, Err(("bad".to_string(), 4)), &mut errors).is_none());
    assert_eq!(errors.errors.len(), 1);
    assert_eq!(errors.errors[0].display(), "Drython Runtime Error: Function ['f'] Line [4] - bad");
}

#[test]
fn wrong_argument_count() {
    let src = "System\nf(a,b):\n  return a\nend\n";
    let (mut host, _list, mut errors) = script(src);
    assert!(call_function(&mut host, &"f".to_string(), vec![Token::Int(1)], &mut errors).is_none());
    assert_eq!(errors.errors.len(), 1);
    assert_eq!(errors.errors[0].display(), "Drython Runtime Error: Function ['f'] Line [2] - Expected 2 arguments, but only recieved 1.");
}

#[test]
fn unknown_function() {
    let (mut host, list, _errors) = script("System\nx=1\n");
    let globals = Vars::new();
    let (r, g) = call(&mut host, &globals, &list, "nope", vec![], 7);
    assert!(g.is_none());
    assert_eq!(r.unwrap_err(), ("No function called 'nope' exists.".to_string(), 7));
    assert!(find_function(&list, "nope").is_none());
}

#[test]
fn setup_reports_unknown_libraries() {
    let (host, _list, errors) = script("System\ninclude nothing\ninclude math\nx = 1\n");
    assert_eq!(errors.errors.len(), 1);
    assert_eq!(errors.errors[0].display(), "Drython Runtime Error: Line [2] - No library found with the name: nothing");
    assert!(host.globals.contains("x"));
    assert!(host.globals.get("pi_ish").unwrap().external);
}

#[test]
fn scope_keeps_outer_variables() {
    let mut errors = ErrorManager::new();
    let parser = Parser::parse_source("t.dry", "System\nf():\n  z = 1\n  e = true\nend\n", &mut errors).unwrap();
    let f = &parser.global_expressions.internal_expressions[0].0;
    let mut host = TestHost::new();
    let mut vars = Vars::new();
    vars.insert("e".to_string(), var(Token::Int(7), true));
    let r = handle_scope(&mut host, f, &mut vars, false);
    assert!(matches!(r, Ok(None)));
    assert!(!vars.contains("z"));
    assert!(matches!(vars.get("e").unwrap().value, Token::Int(7)));
    assert_eq!(host.changed, vec!["e".to_string()]);
}

#[test]
fn an_external_collection_keeps_its_kind() {
    let mut errors = ErrorManager::new();
    let parser = Parser::parse_source("t.dry", "System\nf():\n  e = [3]\nend\ng():\n  e = [5,6]\nend\n", &mut errors).unwrap();
    let f = &parser.global_expressions.internal_expressions[0].0;
    let g = &parser.global_expressions.internal_expressions[1].0;
    let mut host = TestHost::new();
    let mut vars = Vars::new();
    vars.insert("e".to_string(), var(Token::Collection(vec![Token::Int(1), Token::Int(2)]), true));
    assert!(matches!(handle_scope(&mut host, f, &mut vars, false), Ok(None)));
    match &vars.get("e").unwrap().value {
        Token::Collection(v) => assert!(matches!(v.as_slice(), [Token::Int(1), Token::Int(2)])),
        _ => panic!("not a collection"),
    }
    assert!(matches!(handle_scope(&mut host, g, &mut vars, false), Ok(None)));
    match &vars.get("e").unwrap().value {
        Token::Collection(v) => assert!(matches!(v.as_slice(), [Token::Int(5), Token::Int(6)])),
        _ => panic!("not a collection"),
    }
}

#[test]
fn a_failed_inner_scope_leaves_its_variables() {
    let mut errors = ErrorManager::new();
    let src = "System\nf():\n  if(true):\n    y = 1\n    z = q\n  end\n  w = 2\n  return 5\nend\n";
    let parser = Parser::parse_source("t.dry", src, &mut errors).unwrap();
    let f = &parser.global_expressions.internal_expressions[0].0;
    let mut host = TestHost::new();
    let mut vars = Vars::new();
    let r = handle_scope(&mut host, f, &mut vars, false);
    assert!(matches!(r, Ok(Some(Token::Int(5)))));
    assert!(vars.contains("y"));
    assert!(!vars.contains("w"));
}

#[test]
fn call_internal_binds_parameters() {
    let mut errors = ErrorManager::new();
    let parser = Parser::parse_source("t.dry", "System\nf(a):\n  return a+1\nend\n", &mut errors).unwrap();
    let f = &parser.global_expressions.internal_expressions[0].0;
    let mut host = TestHost::new();
    let globals = Vars::new();
    let (r, g) = call_internal(&mut host, &globals, f, vec![Token::Int(1)]);
    assert!(matches!(r, Ok(Some(Token::Int(2)))));
    assert!(g.unwrap().contains("a"));
}

#[test]
fn modifiers_on_definitions() {
    let mut host = TestHost::new();
    let mut vars = Vars::new();
    let def = ("x".to_string(), vec![], vec![Token::Var("y".to_string())], 1usize);
    assert_eq!(handle_variable_modifiers(&mut host, &mut vars, &def, Token::Int(1), vec![VariableModifier::Unkown("odd".to_string())], false).unwrap_err(), "Unkown modifier 'odd' on variable 'x'.");
    assert_eq!(handle_variable_modifiers(&mut host, &mut vars, &def, Token::Int(1), vec![VariableModifier::Public], true).unwrap_err(), "Identifier 'Public' is not allowed inside a scope. Place the variable definition outside a function.");
    assert!(handle_variable_modifiers(&mut host, &mut vars, &def, Token::Int(1), vec![VariableModifier::Alias], true).is_ok());
    assert!(matches!(&vars.get("x").unwrap().value, Token::Var(n) if n == "y"));
    assert_eq!(handle_variable_modifiers(&mut host, &mut vars, &def, Token::Int(1), vec![VariableModifier::External], false).unwrap_err(), "External variables require a string path.");
    assert!(handle_variable_modifiers(&mut host, &mut vars, &def, Token::Int(4), vec![VariableModifier::Const], false).is_ok());
    assert!(matches!(vars.get("x").unwrap().value, Token::Int(4)));
    let lit = ("w".to_string(), vec![], vec![Token::Int(2)], 1usize);
    assert_eq!(handle_variable_modifiers(&mut host, &mut vars, &lit, Token::Int(2), vec![VariableModifier::Alias], false).unwrap_err(), "Alias modifier expects a reference to another variable/function. Found: '2'");
}

#[test]
fn expect_argument_kinds() {
    let args = vec![Token::Int(1), Token::Bool(true)];
    assert!(expect(&args, &vec![Some(vec![IsToken::IsInt]), None]).is_ok());
    assert_eq!(expect(&args, &vec![None]).unwrap_err(), "Too many arguments were passed to this function.");
    assert_eq!(expect(&args, &vec![None, None, None]).unwrap_err(), "Too few arguments passed for this function.");
    assert_eq!(expect(&args, &vec![None, Some(vec![IsToken::IsInt, IsToken::IsString])]).unwrap_err(), "Unexpected argument type. Expected one of [IsInt, IsString] for argument 1.");
}

#[test]
fn expect_collection_counts_items() {
    let c = Token::Collection(vec![Token::Int(1), Token::Int(2)]);
    assert!(expect_collection(&c, 0, vec![IsToken::IsInt, IsToken::IsBool]).is_ok());
    assert_eq!(expect_collection(&c, 3, vec![IsToken::IsInt]).unwrap_err(), "Expected 1 items in the collection for argument 3.");
    assert_eq!(expect_collection(&Token::Int(1), 2, vec![]).unwrap_err(), "Expected a collection for argument 2");
}

#[test]
fn is_token_kinds() {
    assert!(IsToken::IsInt.eq_token(&Token::Int(3)));
    assert!(!IsToken::IsInt.eq_token(&Token::Bool(true)));
    assert!(!IsToken::IsNone.eq_token(&Token::Null));
    assert!(!IsToken::IsBool.ne_token(&Token::Int(1)));
}

#[test]
fn libraries_by_name() {
    assert_eq!(get_lib("math").unwrap(), Library::Math);
    assert_eq!(get_lib("vector").unwrap(), Library::Vector);
    assert_eq!(get_lib("collection").unwrap(), Library::Collection);
    assert_eq!(get_lib("net").unwrap_err(), "No library found with the name: net");
}

#[test]
fn collection_library() {
    let r = add_collection(vec![Token::Collection(vec![Token::Int(1)]), Token::Int(2)]).unwrap().unwrap();
    assert!(matches!(&r, Token::Collection(v) if v.len() == 2 && matches!(v[1], Token::Int(2))));
    let r = remove_collection(vec![Token::Collection(vec![Token::Int(1), Token::Int(2), Token::Int(3)]), Token::Int(1)]).unwrap().unwrap();
    assert!(matches!(&r, Token::Collection(v) if v.len() == 2 && matches!(v[1], Token::Int(3))));
    assert_eq!(remove_collection(vec![Token::Collection(vec![Token::Int(1)]), Token::Int(0)]).unwrap_err(), "Tried to remove from collection at index that does not exist.");
    assert_eq!(add_collection(vec![Token::Int(1), Token::Int(2)]).unwrap_err(), "Unexpected argument type. Expected one of [IsCollection] for argument 0.");
}

#[test]
fn error_messages() {
    assert_eq!(ParseError::new(3, "bad").display(), "Drython Parse Error: Line [3] - bad");
    assert_eq!(RuntimeError::new(4, None, "oops").display(), "Drython Runtime Error: Line [4] - oops");
    assert_eq!(RuntimeError::new(4, Some("f".to_string()), "oops").display(), "Drython Runtime Error: Function ['f'] Line [4] - oops");
    let e = ScriptTypeError::new("widget".to_string()).display();
    assert!(e.contains("widget"));
    let mut a = ErrorManager::new();
    a.add_error(ErrorRecord::Parse(ParseError::new(1, "x")));
    let mut b = ErrorManager::new();
    b.parse_error(2, "y");
    a.merge(b);
    assert_eq!(a.errors.len(), 2);
    assert_eq!(a.errors[1].display(), "Drython Parse Error: Line [2] - y");
}

#[test]
fn a_literal_evaluates_to_itself() {
    assert!(matches!(eval("42", &Vars::new()), Ok(Some(Token::Int(42)))));
    assert!(matches!(eval("'q'", &Vars::new()), Ok(Some(Token::Char('q')))));
}

#[test]
fn left_grouping_evaluates() {
    let mut vars = Vars::new();
    vars.insert("x".to_string(), var(Token::Int(10), false));
    assert!(matches!(eval("x*2/7", &vars), Ok(Some(Token::Int(2)))));
}

#[test]
fn addition_of_numbers_commutes() {
    assert!(matches!(settle(&Token::Int(2).add(&Token::Bool(true))), Some(Token::Int(3))));
    assert!(matches!(settle(&Token::Bool(true).add(&Token::Int(2))), Some(Token::Int(3))));
    assert!(matches!(eval("7+5", &Vars::new()), Ok(Some(Token::Int(12)))));
    assert!(matches!(eval("5+7", &Vars::new()), Ok(Some(Token::Int(12)))));
}

#[test]
fn equality_is_symmetric() {
    let pairs = vec![
        (Token::String("1".to_string()), Token::Int(1)),
        (Token::Char('a'), Token::String("a".to_string())),
        (Token::Int(0), Token::Bool(false)),
        (Token::Collection(vec![Token::Int(1), Token::Int(2)]), Token::Collection(vec![Token::Int(1), Token::Int(3)])),
    ];
    for (a, b) in pairs.iter() {
        let x = settle(&a.compare_eq(b));
        let y = settle(&b.compare_eq(a));
        assert_eq!(format!("{:?}", x), format!("{:?}", y));
    }
    assert!(matches!(settle(&Token::Int(0).compare_eq(&Token::Bool(false))), Some(Token::Bool(true))));
}

#[test]
fn a_registered_function_wins_over_the_script() {
    let (mut host, list, _errors) = script("System\nf(a):\n  return a+1\nend\n");
    let mut globals = Vars::new();
    let r = call_by_name(&mut host, Registered::Answered(Ok(Some(Token::Int(9)))), &mut globals, &list, "f", vec![Token::Int(1)], 3);
    assert!(matches!(r, Ok(Some(Token::Int(9)))));
    let r = call_by_name(&mut host, Registered::Answered(Err("no".to_string())), &mut globals, &list, "f", vec![Token::Int(1)], 3);
    assert_eq!(r.unwrap_err(), ("no".to_string(), 0));
    assert!(matches!(call_by_name(&mut host, Registered::Empty, &mut globals, &list, "f", vec![], 3), Ok(None)));
    let r = call_by_name(&mut host, Registered::Absent, &mut globals, &list, "f", vec![Token::Int(1)], 3);
    assert!(matches!(r, Ok(Some(Token::Int(2)))));
    let r = call_by_name(&mut host, Registered::Absent, &mut globals, &list, "g", vec![], 3);
    assert_eq!(r.unwrap_err(), ("No function called 'g' exists.".to_string(), 3));
}

#[test]
fn an_indexed_item_is_evaluated() {
    let mut host = TestHost::new();
    let vars = Vars::new();
    let items = Token::Collection(vec![Token::Int(1), Token::Operation(parse_operation("2+3").unwrap())]);
    let t = Token::Accessor(Box::new(items), Box::new(Token::Int(1)));
    assert!(matches!(handle_token_type(&mut host, &t, &vars, false), Ok(Some(Token::Int(5)))));
}

#[test]
fn a_call_gives_the_function_value_or_itself() {
    let call = Token::Call("f".to_string(), "1".to_string());
    assert!(matches!(settle_call(Ok(Some(Token::Int(4))), call), Ok(Some(Token::Int(4)))));
    let call = Token::Call("f".to_string(), "1".to_string());
    assert!(matches!(settle_call(Ok(None), call), Ok(Some(Token::Call(ref n, _))) if n == "f"));
    let call = Token::Call("f".to_string(), "1".to_string());
    assert_eq!(settle_call(Err(("bad".to_string(), 3)), call).unwrap_err(), "bad");
}

#[test]
fn a_call_line_goes_on_or_fails_with_the_call() {
    assert!(matches!(call_line_end(Ok(Some(Token::Int(1)))), LineEnd::Next));
    assert!(matches!(call_line_end(Ok(None)), LineEnd::Next));
    assert!(matches!(call_line_end(Err(("bad".to_string(), 7))), LineEnd::Fail(Err((ref m, 7))) if m == "bad"));
}

#[test]
fn a_line_after_its_operation() {
    let mut host = TestHost::new();
    let mut vars = Vars::new();
    let mut run = Run { result: Ok(None), locals: vec![], prev_failed: false, single: 0, multi: 0, internal: 0 };
    let assign_x = ("x".to_string(), vec![], vec![], 2usize);
    assert!(matches!(single_line_after(&mut host, &assign_x, 2, Ok(Some(Token::Int(8))), &mut vars, false, &mut run), LineEnd::Next));
    assert!(matches!(vars.get("x").unwrap().value, Token::Int(8)));
    assert_eq!(run.locals, vec!["x".to_string()]);
    let ret = ("return".to_string(), vec![], vec![], 3usize);
    assert!(matches!(single_line_after(&mut host, &ret, 3, Ok(Some(Token::Int(1))), &mut vars, false, &mut run), LineEnd::Next));
    assert!(matches!(run.result, Ok(Some(Token::Int(1)))));
    assert!(matches!(single_line_after(&mut host, &ret, 3, Err("e".to_string()), &mut vars, false, &mut run), LineEnd::Fail(Err((ref m, 3))) if m == "e"));
}
