use yarn_compiler::declaration::{Declaration, DeclarationKind};
use yarn_compiler::diagnostic::{Position, Range};
use yarn_compiler::string_table::{StringInfo, StringTableManager};
use yarn_compiler::text::{file_stem, filename, format_cannot_determine_variable_type_error, push_decimal, split_words};
use yarn_compiler::tracking::{add_tracking_declarations, generate_unique_visited_variable_for_node};
use yarn_compiler::tree::{
    Expression, ExpressionKind, FunctionCall, ParseContext, SourceInterval, Term, ValueNode, VariableNode,
};
use yarn_compiler::types::{default_value_for_type, FunctionType, Operator, Type, Value};
use yarn_compiler::type_check::{decide_expression_type, types_supporting, TypeCheckVisitor};

fn info(file: &str, node: &str, text: &str) -> StringInfo {
    StringInfo {
        text: text.to_string(),
        node_name: node.to_string(),
        line_number: 1,
        file_name: file.to_string(),
        is_implicit_tag: false,
        metadata: Vec::new(),
    }
}

#[test]
fn decimal_text() {
    let mut s = String::from("n=");
    push_decimal(&mut s, 0);
    push_decimal(&mut s, 1907);
    assert_eq!(s, "n=01907");
    let mut big = String::new();
    push_decimal(&mut big, usize::MAX);
    assert_eq!(big, usize::MAX.to_string());
}

#[test]
fn file_names() {
    assert_eq!(filename("a/b/Start.yarn"), "Start.yarn");
    assert_eq!(filename("Start.yarn"), "Start.yarn");
    assert_eq!(filename("dir/"), "dir");
    assert_eq!(filename("foo.txt/."), "foo.txt");
    assert_eq!(filename("a/./b//"), "b");
    assert_eq!(filename("a/.."), "a/..");
    assert_eq!(filename("/"), "/");
    assert_eq!(filename("."), ".");
    assert_eq!(filename(""), "");
    assert_eq!(file_stem("Start.yarn"), "Start");
    assert_eq!(file_stem("archive.tar.gz"), "archive.tar");
    assert_eq!(file_stem(".hidden"), ".hidden");
    assert_eq!(file_stem("plain"), "plain");
}

#[test]
fn cannot_determine_message() {
    assert_eq!(
        format_cannot_determine_variable_type_error("$v"),
        "Can't figure out the type of variable $v given its context. Specify its type with a <<declare>> statement."
    );
}

#[test]
fn insert_explicit_and_implicit() {
    let mut t = StringTableManager::new();
    let a = t.insert(Some("line:a".to_string()), info("f.yarn", "N", "A"));
    assert_eq!(a, "line:a");
    let b = t.insert(None, info("x/f.yarn", "N", "B"));
    assert_eq!(b, "line:f-N-1");
    assert_eq!(t.len(), 2);
    assert!(t.contains_implicit_string_tags());
    // Storing under an id that is there replaces the line.
    let c = t.insert(Some("line:a".to_string()), info("f.yarn", "N", "C"));
    assert_eq!(c, "line:a");
    assert_eq!(t.len(), 2);
    assert_eq!(t.entries[0].1.text, "C");
    assert_eq!(t.position(&"line:f-N-1".to_string()), Some(1));
}

#[test]
fn extend_with_itself_changes_nothing() {
    let mut t = StringTableManager::new();
    t.insert(Some("line:a".to_string()), info("f.yarn", "N", "A"));
    t.insert(None, info("f.yarn", "N", "B"));
    let mut copy = StringTableManager::new();
    for (id, i) in &t.entries {
        copy.insert(Some(id.clone()), info(&i.file_name, &i.node_name, &i.text));
    }
    t.extend(copy);
    assert_eq!(t.len(), 2);
    assert_eq!(t.entries[0].0, "line:a");
    assert_eq!(t.entries[1].0, "line:f-N-1");
}

#[test]
fn defaults() {
    assert!(matches!(default_value_for_type(Some(Type::Number)), Some(Value::Number(s)) if s == "0"));
    assert!(matches!(default_value_for_type(Some(Type::String)), Some(Value::String(s)) if s.is_empty()));
    assert!(matches!(default_value_for_type(Some(Type::Boolean)), Some(Value::Boolean(false))));
    assert!(default_value_for_type(None).is_none());
}

#[test]
fn expression_type_decision() {
    assert_eq!(decide_expression_type(&vec![None, Some(Type::String)], Operator::Add), Some(Type::String));
    assert_eq!(decide_expression_type(&vec![None, None], Operator::Multiply), Some(Type::Number));
    assert_eq!(decide_expression_type(&vec![None], Operator::Not), Some(Type::Boolean));
    assert_eq!(decide_expression_type(&vec![None, None], Operator::Add), None);
    assert_eq!(decide_expression_type(&vec![None, None], Operator::EqualTo), None);
    assert_eq!(types_supporting(Operator::Add), vec![Type::String, Type::Number]);
    assert_eq!(types_supporting(Operator::NotEqualTo), vec![Type::String, Type::Number, Type::Boolean]);
}

#[test]
fn tracking_declarations() {
    let nodes = vec!["A".to_string(), "B".to_string()];
    let mut known = Vec::new();
    let mut derived = Vec::new();
    add_tracking_declarations(&nodes, &mut known, &mut derived);
    assert_eq!(known.len(), 2);
    assert_eq!(derived.len(), 2);
    assert_eq!(known[1].name, "$Yarn.Internal.Visiting.B");
    assert_eq!(derived[0].name, generate_unique_visited_variable_for_node("A"));
    assert_eq!(known[0].ty, Some(Type::Number));
}

#[test]
fn term_context() {
    let v = VariableNode {
        context: ParseContext {
            interval: SourceInterval { a: 2, b: 3 },
            start: Position { line: 1, character: 2 },
            stop: Position { line: 1, character: 4 },
            text: "$v".to_string(),
        },
        name: "$v".to_string(),
    };
    let t = Term::Variable(&v);
    assert_eq!(t.generic_context().interval, SourceInterval { a: 2, b: 3 });
    assert_eq!(t.generic_context().text, "$v");
}

fn context_at(a: usize, text: &str) -> ParseContext {
    ParseContext {
        interval: SourceInterval { a, b: a },
        start: Position { line: 1, character: a },
        stop: Position { line: 1, character: a + 1 },
        text: text.to_string(),
    }
}

#[test]
fn visitor_records_expression_types() {
    let mut v = TypeCheckVisitor::new("f.yarn".to_string(), Vec::new());
    let left = Expression { context: context_at(0, "$a"), kind: ExpressionKind::Value(ValueNode::Variable(VariableNode { context: context_at(0, "$a"), name: "$a".to_string() })) };
    let right = Expression { context: context_at(2, "1"), kind: ExpressionKind::Value(ValueNode::Number("1".to_string())) };
    let sum = Expression { context: ParseContext { interval: SourceInterval { a: 0, b: 2 }, ..context_at(0, "$a * 1") }, kind: ExpressionKind::Binary(Operator::Multiply, Box::new(left), Box::new(right)) };
    assert_eq!(v.visit_expression(&sum, None), Some(Type::Number));
    assert_eq!(v.get_type(SourceInterval { a: 0, b: 2 }), Some(Type::Number));
    assert_eq!(v.get_type(SourceInterval { a: 2, b: 2 }), Some(Type::Number));
    // `$a` was unknown when it was visited, so nothing was recorded for it.
    assert_eq!(v.get_type(SourceInterval { a: 0, b: 0 }), None);
    assert_eq!(v.deferred_types.len(), 1);
    let all = v.declarations();
    assert_eq!(all.len(), 1);
    assert_eq!(all[0].name, "$a");
    assert_eq!(all[0].ty, Some(Type::Number));
}

#[test]
fn term_derefs_to_its_context() {
    let v = VariableNode { context: context_at(5, "$w"), name: "$w".to_string() };
    let t = Term::Variable(&v);
    assert_eq!(t.interval, SourceInterval { a: 5, b: 5 });
    assert_eq!(t.text, "$w");
}

#[test]
fn words() {
    assert_eq!(split_words("  a bb  c "), vec!["a".to_string(), "bb".to_string(), "c".to_string()]);
    assert!(split_words("   ").is_empty());
    assert_eq!(split_words("one"), vec!["one".to_string()]);
}

#[test]
fn existing_function_takes_the_hinted_return_type() {
    let origin = Position { line: 0, character: 0 };
    let host = Declaration {
        name: "f".to_string(),
        ty: None,
        default_value: None,
        description: String::new(),
        source_file_name: String::new(),
        source_node_name: None,
        range: Range { start: origin, end: origin },
        is_implicit: false,
        kind: DeclarationKind::Function(FunctionType::new(Vec::new(), None)),
    };
    let mut v = TypeCheckVisitor::new("f.yarn".to_string(), vec![host]);
    let call = Expression {
        context: context_at(0, "f()"),
        kind: ExpressionKind::Value(ValueNode::Function(FunctionCall { context: context_at(0, "f()"), name: "f".to_string(), arguments: Vec::new() })),
    };
    assert_eq!(v.visit_expression(&call, Some(Type::Boolean)), Some(Type::Boolean));
    match &v.existing_declarations[0].kind {
        DeclarationKind::Function(ft) => assert_eq!(ft.return_type, Some(Type::Boolean)),
        DeclarationKind::Variable => panic!("f should be a function"),
    }
    assert!(v.new_declarations.is_empty());
}
