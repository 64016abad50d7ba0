use drython::utility::{split_by, get_operator_worth, operations_contains, expression_is_scope, ExpressionType};
use drython::parser::call_parser::parse_call;
use drython::parser::variable_parser::parse_var;
use drython::parser::scope_parser::parse_scope;
use drython::parser::expression_parser::get_expression_type;
use drython::parser::operation_parser::{parse_operation, operator_a_gte_b};
use drython::parser::handle_content_replace;
use drython::runner::var::check_var;
use drython::script_type::ScriptType;
use drython::types::{Parser, Token, VariableModifier, ExpressionListType};
use drython::error::{ErrorManager, DrythonError};

#[test]
fn split_by_commas() {
    assert_eq!(split_by("a,b,c", ',').unwrap(), vec!["a".to_string(), "b".to_string(), "c".to_string()]);
}

#[test]
fn split_by_keeps_brackets_together() {
    assert_eq!(split_by("f(a,b),[c,d],e", ',').unwrap(), vec!["f(a,b)".to_string(), "[c,d]".to_string(), "e".to_string()]);
}

#[test]
fn split_by_loses_no_character() {
    let pieces = split_by("a,b,", ',').unwrap();
    assert_eq!(pieces, vec!["a".to_string(), "b,".to_string()]);
    assert_eq!(pieces.join(","), "a,b,");
}

#[test]
fn split_by_empty_text() {
    assert_eq!(split_by("", ',').unwrap(), Vec::<String>::new());
}

#[test]
fn split_by_excess_bracket() {
    assert_eq!(split_by("a)", ',').unwrap_err(), "Excess ')' found. Make sure to properly enclose your statements.");
}

#[test]
fn split_by_unclosed_bracket() {
    assert_eq!(split_by("(a", ',').unwrap_err(), "Too few brackets/parenthises found. Make sure to enclose your expressions correctly.");
}

#[test]
fn parse_call_name_and_arguments() {
    let (name, args) = parse_call("print(1,x)").unwrap();
    assert_eq!(name, "print");
    assert_eq!(args, vec!["1".to_string(), "x".to_string()]);
}

#[test]
fn parse_call_without_parenthesis() {
    assert_eq!(parse_call("print").unwrap_err(), "Failed to parse call.\nInvalid function.");
}

#[test]
fn parse_call_unclosed() {
    assert_eq!(parse_call("print(1").unwrap_err(), "No closing parenthesis found on function call.");
}

#[test]
fn parse_var_plain() {
    let (mods, name, value) = parse_var("x=5").unwrap();
    assert!(mods.is_empty());
    assert_eq!(name, "x");
    assert_eq!(value, "5");
}

#[test]
fn parse_var_with_modifier() {
    let (mods, name, value) = parse_var("const!x=5").unwrap();
    assert_eq!(mods, vec!["const".to_string()]);
    assert_eq!(name, "x");
    assert_eq!(value, "5");
}

#[test]
fn parse_var_increment() {
    let (_, name, value) = parse_var("x++").unwrap();
    assert_eq!(name, "x");
    assert_eq!(value, "x+1");
}

#[test]
fn parse_var_compound_assignment() {
    let (_, name, value) = parse_var("x+=2").unwrap();
    assert_eq!(name, "x");
    assert_eq!(value, "x+2");
}

#[test]
fn parse_var_two_equals() {
    assert_eq!(parse_var("x=y=2").unwrap_err(), "Failed to parse variable assignment. Expected a single '='.");
}

#[test]
fn expression_types() {
    assert_eq!(get_expression_type("x=5").unwrap(), ExpressionType::Assignment);
    assert_eq!(get_expression_type("end").unwrap(), ExpressionType::End);
    assert_eq!(get_expression_type("END").unwrap(), ExpressionType::End);
    assert_eq!(get_expression_type("//note").unwrap(), ExpressionType::Comment);
    assert_eq!(get_expression_type("loop:").unwrap(), ExpressionType::Loop);
    assert_eq!(get_expression_type("if(x>1):").unwrap(), ExpressionType::If);
    assert_eq!(get_expression_type("print(x)").unwrap(), ExpressionType::Call);
    assert_eq!(get_expression_type("main(a,b):").unwrap(), ExpressionType::Function);
    assert_eq!(get_expression_type("returnx").unwrap(), ExpressionType::Return);
    assert_eq!(get_expression_type("includemath").unwrap(), ExpressionType::Library);
    assert_eq!(get_expression_type("").unwrap(), ExpressionType::Empty);
    assert_eq!(get_expression_type("x++").unwrap(), ExpressionType::Assignment);
}

#[test]
fn expression_type_unknown_character() {
    assert_eq!(get_expression_type("x$").unwrap_err(), "Failed to recognize character: '$'");
}

#[test]
fn scopes_are_functions_ifs_and_loops() {
    assert!(expression_is_scope(&ExpressionType::Function));
    assert!(expression_is_scope(&ExpressionType::If));
    assert!(expression_is_scope(&ExpressionType::Loop));
    assert!(!expression_is_scope(&ExpressionType::Else));
}

#[test]
fn parse_scope_function() {
    let (name, args) = parse_scope("main(a,b):", &ExpressionType::Function).unwrap();
    assert_eq!(name, Some("main".to_string()));
    assert_eq!(args, Some("a,b".to_string()));
}

#[test]
fn parse_scope_needs_colon() {
    assert_eq!(parse_scope("loop", &ExpressionType::Loop).unwrap_err(), "Loop expressions need to end with a ':'");
}

#[test]
fn operator_worths() {
    assert_eq!(get_operator_worth("+"), 0);
    assert_eq!(get_operator_worth("*"), 1);
    assert_eq!(get_operator_worth("=="), 5);
    assert!(operator_a_gte_b("*", "+"));
    assert!(!operator_a_gte_b("+", "*"));
    assert!(operations_contains('%'));
    assert!(!operations_contains('a'));
}

#[test]
fn parse_operation_postfix_stored_last_first() {
    let ops = parse_operation("1+2*3").unwrap();
    assert_eq!(ops.len(), 5);
    assert!(matches!(&ops[0], Token::Operator(o) if o == "+"));
    assert!(matches!(&ops[1], Token::Operator(o) if o == "*"));
    assert!(matches!(&ops[2], Token::Int(3)));
    assert!(matches!(&ops[3], Token::Int(2)));
    assert!(matches!(&ops[4], Token::Int(1)));
}

#[test]
fn parse_operation_values() {
    assert!(matches!(&parse_operation("\"hi\"").unwrap()[0], Token::String(s) if s == "hi"));
    assert!(matches!(&parse_operation("true").unwrap()[0], Token::Bool(true)));
    assert!(matches!(&parse_operation("'c'").unwrap()[0], Token::Char('c')));
    assert!(matches!(&parse_operation("x").unwrap()[0], Token::Var(n) if n == "x"));
    assert!(matches!(&parse_operation("1.5").unwrap()[0], Token::Float(f) if f == "1.5"));
}

#[test]
fn content_replace_numbers_lines() {
    let lines = handle_content_replace("Component;\nx = 1\n");
    assert_eq!(lines, vec!["1)Component;".to_string(), "2)x=1".to_string()]);
}

#[test]
fn content_replace_keeps_spaces_in_literals() {
    let lines = handle_content_replace("s = \"a b\"");
    assert_eq!(lines, vec!["1)s=\"a b\"".to_string()]);
}

#[test]
fn check_var_messages() {
    let empty: Vec<String> = vec![];
    assert!(check_var((&"x".to_string(), &"1+2".to_string()), &empty, &empty).is_ok());
    assert_eq!(check_var((&"".to_string(), &"1".to_string()), &empty, &empty).unwrap_err(), "Failed to parse variable:\nThe variable name is empty.");
    assert_eq!(check_var((&"x".to_string(), &"".to_string()), &empty, &empty).unwrap_err(), "Failed to parse variable:\nThe variable value is empty.");
    assert_eq!(check_var((&"x$".to_string(), &"1".to_string()), &empty, &empty).unwrap_err(), "Failed to parse variable:\nThe variable name contains special characters.");
    assert_eq!(check_var((&"x".to_string(), &"1$".to_string()), &empty, &empty).unwrap_err(), "Failed to parse variable:\nThe variable value contains special characters.");
}

#[test]
fn script_types() {
    assert_eq!(ScriptType::from_string("Component"), ScriptType::Component);
    assert_eq!(ScriptType::from_string("System"), ScriptType::System);
    assert_eq!(ScriptType::from_string("other"), ScriptType::Unrecognized);
    assert_eq!(ScriptType::from_string("system"), ScriptType::Unrecognized);
}

#[test]
fn modifiers_by_name() {
    assert!(matches!(VariableModifier::from_name("PUB"), VariableModifier::Public));
    assert!(matches!(VariableModifier::from_name("constant"), VariableModifier::Const));
    assert!(matches!(VariableModifier::from_name("weird"), VariableModifier::Unkown(s) if s == "weird"));
    assert!(VariableModifier::Alias.check_scope_allowed());
    assert!(!VariableModifier::Public.check_scope_allowed());
}

#[test]
fn parse_source_script() {
    let mut errors = ErrorManager::new();
    let source = "Component;\nx = 1 + 2\nmain():\n  y = x\n  return y\nend\n";
    let parser = Parser::parse_source("test.dry", source, &mut errors).unwrap();
    assert_eq!(parser.script_type, ScriptType::Component);
    assert_eq!(errors.errors.len(), 0);
    let g = &parser.global_expressions;
    assert_eq!(g.single_op.len(), 1);
    assert_eq!(g.single_op[0].0, "x");
    assert_eq!(g.internal_expressions.len(), 1);
    assert_eq!(g.internal_expressions[0].0.scope_info.0, Some("main".to_string()));
    assert_eq!(g.internal_expressions[0].0.single_op.len(), 2);
    assert!(g.expression_order.contains(&ExpressionListType::Internal));
}

#[test]
fn parse_source_empty_contents() {
    let mut errors = ErrorManager::new();
    assert_eq!(Parser::parse_source("f.dry", "", &mut errors).err().unwrap(), "Contents of f.dry were empty.");
}

#[test]
fn parse_source_unknown_type() {
    let mut errors = ErrorManager::new();
    assert_eq!(Parser::parse_source("f.dry", "widget;\nx=1", &mut errors).err().unwrap(), "Unexpected script type: widget");
}

#[test]
fn parse_source_reports_call_outside_function() {
    let mut errors = ErrorManager::new();
    let _ = Parser::parse_source("f.dry", "System\nprint(1)\n", &mut errors).unwrap();
    assert_eq!(errors.errors.len(), 1);
    assert_eq!(errors.errors[0].display(), "Drython Parse Error: Line [2] - Unexpected function call in script. Did you mean to call it inside a function?");
}

#[test]
fn parse_source_keeps_one_include_per_library() {
    let mut errors = ErrorManager::new();
    let parser = Parser::parse_source("f.dry", "System\ninclude math\ninclude math\n", &mut errors).unwrap();
    assert_eq!(parser.global_expressions.includes.len(), 1);
    assert_eq!(parser.global_expressions.includes[0], ("math".to_string(), 3));
}

#[test]
fn equal_worth_operators_apply_from_the_left() {
    let ops = parse_operation("x*2/7").unwrap();
    assert_eq!(ops.len(), 5);
    assert!(matches!(&ops[0], Token::Operator(o) if o == "/"));
    assert!(matches!(&ops[1], Token::Int(7)));
    assert!(matches!(&ops[2], Token::Operator(o) if o == "*"));
    assert!(matches!(&ops[3], Token::Int(2)));
    assert!(matches!(&ops[4], Token::Var(n) if n == "x"));
}

#[test]
fn a_parsed_list_counts_its_lines() {
    let mut errors = ErrorManager::new();
    let src = "System\nf():\n  x = 1\n  print(x)\n  if(true):\n    y = 2\n  end\n  return x\nend\n";
    let parser = Parser::parse_source("t.dry", src, &mut errors).unwrap();
    let f = &parser.global_expressions.internal_expressions[0].0;
    assert_eq!(f.single_op.len(), 2);
    assert_eq!(f.multi_ops.len(), 1);
    assert_eq!(f.internal_expressions.len(), 1);
    assert_eq!(f.size, 4);
    let singles = f.expression_order.iter().filter(|k| matches!(k, ExpressionListType::Single)).count();
    let multis = f.expression_order.iter().filter(|k| matches!(k, ExpressionListType::Multi)).count();
    assert_eq!((singles, multis), (2, 1));
    assert_eq!(parser.global_expressions.size, 1);
}
