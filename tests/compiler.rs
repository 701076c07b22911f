use yarn_compiler::compile::{compile, CompilationJob, CompilationType};
use yarn_compiler::declaration::{Declaration, DeclarationKind};
use yarn_compiler::diagnostic::{Diagnostic, Position, Range, Severity};
use yarn_compiler::output::{Compilation, CompilationError};
use yarn_compiler::program::{Instruction, OpCode, Operand};
use yarn_compiler::tree::{
    DialogueNode, DialogueTree, Expression, ExpressionKind, FileParseResult, FunctionCall, Header,
    IfClause, IfStatement, JumpStatement, JumpTarget, LineSegment, LineStatement, ParseContext,
    OptionsStatement, SetStatement, ShortcutOption, SourceInterval, Statement, ValueNode,
    VariableNode,
};
use yarn_compiler::types::{FunctionType, Operator, Type, Value};

fn ctx(text: &str) -> ParseContext {
    ParseContext {
        interval: SourceInterval { a: 0, b: 0 },
        start: Position { line: 3, character: 4 },
        stop: Position { line: 3, character: 4 + text.len() },
        text: text.to_string(),
    }
}

fn value(text: &str, v: ValueNode) -> Expression {
    Expression { context: ctx(text), kind: ExpressionKind::Value(v) }
}

fn num(t: &str) -> Expression {
    value(t, ValueNode::Number(t.to_string()))
}

fn var_node(name: &str) -> VariableNode {
    VariableNode { context: ctx(name), name: name.to_string() }
}

fn var(name: &str) -> Expression {
    value(name, ValueNode::Variable(var_node(name)))
}

fn call(name: &str, arguments: Vec<Expression>) -> Expression {
    value(
        name,
        ValueNode::Function(FunctionCall { context: ctx(name), name: name.to_string(), arguments }),
    )
}

fn bin(op: Operator, a: Expression, b: Expression) -> Expression {
    Expression { context: ctx("a op b"), kind: ExpressionKind::Binary(op, Box::new(a), Box::new(b)) }
}

fn set(name: &str, e: Expression) -> Statement {
    Statement::Assign(SetStatement { context: ctx("<<set>>"), variable: var_node(name), expression: e })
}

fn line(text: &str, tags: &[&str]) -> Statement {
    Statement::Line(LineStatement {
        context: ctx(text),
        segments: vec![LineSegment::Text(text.to_string())],
        hashtags: tags.iter().map(|t| t.to_string()).collect(),
    })
}

fn node_with(title: &str, extra: Vec<Header>, body: Vec<Statement>) -> DialogueNode {
    let mut headers = vec![Header { key: "title".to_string(), value: title.to_string() }];
    headers.extend(extra);
    DialogueNode { context: ctx(title), headers, body }
}

fn node(title: &str, body: Vec<Statement>) -> DialogueNode {
    node_with(title, Vec::new(), body)
}

fn file(name: &str, nodes: Vec<DialogueNode>) -> FileParseResult {
    FileParseResult::new(name.to_string(), DialogueTree { file_tags: Vec::new(), nodes })
}

fn run(files: Vec<FileParseResult>, declarations: Vec<Declaration>, t: CompilationType) -> Result<Compilation, CompilationError> {
    compile(CompilationJob { files, declarations, compilation_type: t })
}

fn render(i: &Instruction) -> String {
    let name = match i.opcode {
        OpCode::JumpTo => "JUMP_TO".to_string(),
        OpCode::Jump => "JUMP".to_string(),
        OpCode::RunLine => "RUN_LINE".to_string(),
        OpCode::RunCommand => "RUN_COMMAND".to_string(),
        OpCode::AddOption => "ADD_OPTION".to_string(),
        OpCode::ShowOptions => "SHOW_OPTIONS".to_string(),
        OpCode::PushString => "PUSH_STRING".to_string(),
        OpCode::PushFloat => "PUSH_FLOAT".to_string(),
        OpCode::PushBool => "PUSH_BOOL".to_string(),
        OpCode::PushVariable => "PUSH_VARIABLE".to_string(),
        OpCode::StoreVariable => "STORE_VARIABLE".to_string(),
        OpCode::Pop => "POP".to_string(),
        OpCode::CallFunc => "CALL_FUNC".to_string(),
        OpCode::RunNode => "RUN_NODE".to_string(),
        OpCode::RunNodeExpr => "RUN_NODE_EXPR".to_string(),
        OpCode::Stop => "STOP".to_string(),
        OpCode::JumpIfFalse => "JUMP_IF_FALSE".to_string(),
        OpCode::Operation(op) => op.instruction_name().to_string(),
    };
    let mut out = name;
    for o in &i.operands {
        out.push(' ');
        match o {
            Operand::String(s) => out.push_str(s),
            Operand::Float(s) => out.push_str(s),
            Operand::Bool(b) => out.push_str(if *b { "true" } else { "false" }),
        }
    }
    out
}

fn program_text(c: &Compilation, node_index: usize) -> Vec<String> {
    c.program.as_ref().unwrap().nodes[node_index].instructions.iter().map(render).collect()
}

fn find<'a>(c: &'a Compilation, name: &str) -> &'a Declaration {
    c.declarations.iter().find(|d| d.name == name).unwrap()
}

fn is_number_zero(v: &Option<Value>) -> bool {
    matches!(v, Some(Value::Number(s)) if s == "0")
}

fn error_messages(e: &CompilationError) -> Vec<String> {
    e.diagnostics.iter().map(|d| d.message.clone()).collect()
}

#[test]
fn inferred_variable_from_addition() {
    let body = vec![set("$x", bin(Operator::Add, num("1"), num("2")))];
    let c = run(vec![file("Start.yarn", vec![node("Start", body)])], Vec::new(), CompilationType::FullCompilation).unwrap();
    let implicit: Vec<&Declaration> = c.declarations.iter().filter(|d| d.is_implicit).collect();
    assert_eq!(implicit.len(), 1);
    let x = implicit[0];
    assert_eq!(x.name, "$x");
    assert_eq!(x.ty, Some(Type::Number));
    assert!(is_number_zero(&x.default_value));
    assert_eq!(x.description, "Implicitly declared in Start.yarn, node Start");
    let code = program_text(&c, 0);
    let expected = vec!["PUSH_FLOAT 1", "PUSH_FLOAT 2", "ADD", "STORE_VARIABLE $x", "POP"];
    assert!(code.windows(5).any(|w| w == expected.as_slice()), "{:?}", code);
    assert_eq!(code.last().unwrap(), "STOP");
}

#[test]
fn undetermined_empty_expression() {
    let body = vec![set("$x", var("$y"))];
    let e = run(vec![file("Start.yarn", vec![node("Start", body)])], Vec::new(), CompilationType::FullCompilation).unwrap_err();
    let messages = error_messages(&e);
    assert_eq!(messages.len(), 2, "{:?}", messages);
    assert!(messages.iter().all(|m| m.starts_with("Can't figure out the type of variable")));
    assert!(messages.iter().any(|m| m.contains("$x")));
    assert!(messages.iter().any(|m| m.contains("$y")));
    assert!(e.diagnostics.iter().all(|d| d.severity == Severity::Error));
}

#[test]
fn implicit_function_return_type_from_use() {
    let body = vec![set("$x", bin(Operator::Add, call("my_func", Vec::new()), num("1")))];
    let c = run(vec![file("Start.yarn", vec![node("Start", body)])], Vec::new(), CompilationType::FullCompilation).unwrap();
    let f = find(&c, "my_func");
    match &f.kind {
        DeclarationKind::Function(ft) => {
            assert!(ft.parameters.is_empty());
            assert_eq!(ft.return_type, Some(Type::Number));
        }
        DeclarationKind::Variable => panic!("my_func should be a function"),
    }
    assert!(f.is_implicit);
    let x = find(&c, "$x");
    assert_eq!(x.ty, Some(Type::Number));
    assert!(x.is_implicit);
}

#[test]
fn explicit_line_id_survives() {
    let body = vec![line("Hello there!", &["line:greeting"])];
    let c = run(vec![file("Start.yarn", vec![node("Start", body)])], Vec::new(), CompilationType::FullCompilation).unwrap();
    let entry = c.string_table.entries.iter().find(|(id, _)| id == "line:greeting").unwrap();
    assert!(!entry.1.is_implicit_tag);
    assert_eq!(entry.1.text, "Hello there!");
    assert!(!c.contains_implicit_string_tags);
    let code = program_text(&c, 0);
    assert!(code.contains(&"RUN_LINE line:greeting 0".to_string()), "{:?}", code);
}

#[test]
fn null_literal_rejected() {
    let body = vec![set("$x", value("null", ValueNode::Null))];
    let e = run(vec![file("Start.yarn", vec![node("Start", body)])], Vec::new(), CompilationType::FullCompilation).unwrap_err();
    assert!(error_messages(&e).contains(&"Null is not a permitted type in Yarn Spinner 2.0 and later".to_string()));
}

fn foo_declaration() -> Declaration {
    Declaration {
        name: "foo".to_string(),
        ty: None,
        default_value: None,
        description: String::new(),
        source_file_name: String::new(),
        source_node_name: None,
        range: Range { start: Position { line: 0, character: 0 }, end: Position { line: 0, character: 0 } },
        is_implicit: false,
        kind: DeclarationKind::Function(FunctionType::new(vec![Some(Type::Number), Some(Type::Number)], Some(Type::Boolean))),
    }
}

#[test]
fn arity_mismatch() {
    let body = vec![set("$b", call("foo", vec![num("1")]))];
    let e = run(vec![file("Start.yarn", vec![node("Start", body)])], vec![foo_declaration()], CompilationType::FullCompilation).unwrap_err();
    assert!(error_messages(&e).contains(&"Function foo expects 2 parameters, but received 1".to_string()), "{:?}", error_messages(&e));
}

#[test]
fn arity_message_singular() {
    let mut d = foo_declaration();
    d.kind = DeclarationKind::Function(FunctionType::new(vec![Some(Type::Number)], Some(Type::Boolean)));
    let body = vec![set("$b", call("foo", vec![num("1"), num("2")]))];
    let e = run(vec![file("Start.yarn", vec![node("Start", body)])], vec![d], CompilationType::FullCompilation).unwrap_err();
    assert!(error_messages(&e).contains(&"Function foo expects 1 parameter, but received 2".to_string()));
}

#[test]
fn argument_type_mismatch() {
    let body = vec![set("$b", call("foo", vec![num("1"), value("\"a\"", ValueNode::String("a".to_string()))]))];
    let e = run(vec![file("Start.yarn", vec![node("Start", body)])], vec![foo_declaration()], CompilationType::FullCompilation).unwrap_err();
    assert!(error_messages(&e).contains(&"foo parameter 2 expects a Number, not a String".to_string()), "{:?}", error_messages(&e));
}

#[test]
fn call_code_pushes_arguments_then_calls() {
    let body = vec![set("$b", call("foo", vec![num("1"), num("2")]))];
    let c = run(vec![file("Start.yarn", vec![node("Start", body)])], vec![foo_declaration()], CompilationType::FullCompilation).unwrap();
    let code = program_text(&c, 0);
    let expected = vec!["PUSH_FLOAT 1", "PUSH_FLOAT 2", "CALL_FUNC foo 2", "STORE_VARIABLE $b", "POP"];
    assert!(code.windows(5).any(|w| w == expected.as_slice()), "{:?}", code);
    assert_eq!(find(&c, "$b").ty, Some(Type::Boolean));
}

fn line_ids(c: &Compilation) -> Vec<String> {
    c.string_table.entries.iter().map(|(id, _)| id.clone()).collect()
}

fn two_lines() -> Vec<FileParseResult> {
    vec![file("dir/Start.yarn", vec![node("Start", vec![line("One", &[]), line("Two", &["mood"])])])]
}

#[test]
fn implicit_ids_are_deterministic() {
    let a = run(two_lines(), Vec::new(), CompilationType::FullCompilation).unwrap();
    let b = run(two_lines(), Vec::new(), CompilationType::FullCompilation).unwrap();
    assert_eq!(line_ids(&a), line_ids(&b));
}

#[test]
fn implicit_id_format() {
    let c = run(two_lines(), Vec::new(), CompilationType::FullCompilation).unwrap();
    assert_eq!(line_ids(&c), vec!["line:Start-Start-0".to_string(), "line:Start-Start-1".to_string()]);
    assert!(c.contains_implicit_string_tags);
    let second = &c.string_table.entries[1].1;
    assert!(second.is_implicit_tag);
    assert_eq!(second.metadata, vec!["mood".to_string()]);
    assert_eq!(second.file_name, "dir/Start.yarn");
}

#[test]
fn declaration_defaults_match_types() {
    let body = vec![
        set("$n", num("5")),
        set("$s", value("\"hi\"", ValueNode::String("hi".to_string()))),
        set("$b", value("true", ValueNode::True)),
    ];
    let c = run(vec![file("Start.yarn", vec![node("Start", body)])], Vec::new(), CompilationType::FullCompilation).unwrap();
    for d in &c.declarations {
        if let Some(t) = d.ty {
            let ok = match (&d.default_value, t) {
                (Some(Value::Number(s)), Type::Number) => s == "0",
                (Some(Value::String(s)), Type::String) => s.is_empty(),
                (Some(Value::Boolean(b)), Type::Boolean) => !*b,
                _ => false,
            };
            assert!(ok, "{:?}", d);
        }
    }
    assert_eq!(find(&c, "$s").ty, Some(Type::String));
    assert_eq!(find(&c, "$b").ty, Some(Type::Boolean));
}

#[test]
fn tracking_parity() {
    let tracking = vec![Header { key: "tracking".to_string(), value: "always".to_string() }];
    let nodes = vec![
        node_with("Start", tracking, vec![line("Hi", &["line:hi"])]),
        node("Other", vec![line("Bye", &["line:bye"])]),
    ];
    let c = run(vec![file("Start.yarn", nodes)], Vec::new(), CompilationType::FullCompilation).unwrap();
    let counters: Vec<&Declaration> = c.declarations.iter().filter(|d| d.name.starts_with("$Yarn.Internal.Visiting.")).collect();
    assert_eq!(counters.len(), 1);
    assert_eq!(counters[0].name, "$Yarn.Internal.Visiting.Start");
    assert_eq!(counters[0].ty, Some(Type::Number));
    assert!(is_number_zero(&counters[0].default_value));
    assert_eq!(counters[0].description, "The generated variable for tracking visits of node Start");
    let code = program_text(&c, 0);
    assert_eq!(
        &code[0..5],
        &[
            "PUSH_VARIABLE $Yarn.Internal.Visiting.Start".to_string(),
            "PUSH_FLOAT 1".to_string(),
            "ADD".to_string(),
            "STORE_VARIABLE $Yarn.Internal.Visiting.Start".to_string(),
            "POP".to_string(),
        ]
    );
    let nodes = &c.program.as_ref().unwrap().nodes;
    assert_eq!(nodes[0].tracking_variable_name.as_deref(), Some("$Yarn.Internal.Visiting.Start"));
    assert_eq!(nodes[1].tracking_variable_name, None);
}

fn explicit_source() -> Vec<FileParseResult> {
    vec![file("Start.yarn", vec![node("Start", vec![line("One", &["line:one"]), line("Two", &["line:two"])])])]
}

#[test]
fn round_trip_explicit_ids() {
    let a = run(explicit_source(), Vec::new(), CompilationType::StringsOnly).unwrap();
    assert!(!a.contains_implicit_string_tags);
    let b = run(explicit_source(), Vec::new(), CompilationType::StringsOnly).unwrap();
    assert_eq!(line_ids(&a), vec!["line:one".to_string(), "line:two".to_string()]);
    assert_eq!(line_ids(&a), line_ids(&b));
    for (x, y) in a.string_table.entries.iter().zip(b.string_table.entries.iter()) {
        assert_eq!(x.1.text, y.1.text);
        assert_eq!(x.1.is_implicit_tag, y.1.is_implicit_tag);
    }
}

#[test]
fn strings_only_isolates_type_errors() {
    let body = vec![
        line("Hello", &[]),
        set("$x", bin(Operator::Add, num("1"), value("true", ValueNode::True))),
    ];
    let full = run(vec![file("Start.yarn", vec![node("Start", body)])], Vec::new(), CompilationType::FullCompilation);
    assert!(full.is_err());
    let body = vec![
        line("Hello", &[]),
        set("$x", bin(Operator::Add, num("1"), value("true", ValueNode::True))),
    ];
    let strings = run(vec![file("Start.yarn", vec![node("Start", body)])], Vec::new(), CompilationType::StringsOnly).unwrap();
    assert_eq!(line_ids(&strings), vec!["line:Start-Start-0".to_string()]);
    assert!(strings.program.is_none());
    assert!(strings.declarations.is_empty());
}

#[test]
fn duplicate_line_id_is_an_error() {
    let body = vec![line("One", &["line:same"]), line("Two", &["line:same"])];
    let e = run(vec![file("Start.yarn", vec![node("Start", body)])], Vec::new(), CompilationType::StringsOnly).unwrap_err();
    assert_eq!(error_messages(&e), vec!["Duplicate line ID line:same".to_string()]);
}

#[test]
fn duplicate_node_name_is_an_error() {
    let nodes = vec![node("Start", Vec::new()), node("Start", Vec::new())];
    let e = run(vec![file("Start.yarn", nodes)], Vec::new(), CompilationType::FullCompilation).unwrap_err();
    assert_eq!(error_messages(&e), vec!["Duplicate node name Start".to_string()]);
}

#[test]
fn operand_mismatch_is_an_error() {
    let body = vec![set("$x", bin(Operator::Add, num("1"), value("true", ValueNode::True)))];
    let e = run(vec![file("Start.yarn", vec![node("Start", body)])], Vec::new(), CompilationType::FullCompilation).unwrap_err();
    assert!(error_messages(&e).contains(&"All terms of '+' must be Number, not Bool".to_string()), "{:?}", error_messages(&e));
}

#[test]
fn ambiguous_operation_is_an_error() {
    let body = vec![set("$x", bin(Operator::Add, var("$a"), var("$b")))];
    let e = run(vec![file("Start.yarn", vec![node("Start", body)])], Vec::new(), CompilationType::FullCompilation).unwrap_err();
    let messages = error_messages(&e);
    assert!(messages.iter().any(|m| m.starts_with("Type of expression \"a op b\" can't be determined without more context (the compiler thinks it could be String, or Number)")), "{:?}", messages);
}

#[test]
fn operator_infers_operands() {
    let body = vec![set("$x", bin(Operator::Subtract, var("$a"), var("$b")))];
    let c = run(vec![file("Start.yarn", vec![node("Start", body)])], Vec::new(), CompilationType::FullCompilation).unwrap();
    assert_eq!(find(&c, "$a").ty, Some(Type::Number));
    assert_eq!(find(&c, "$b").ty, Some(Type::Number));
    assert_eq!(find(&c, "$x").ty, Some(Type::Number));
}

#[test]
fn comparison_yields_boolean() {
    let body = vec![set("$x", bin(Operator::LessThan, num("1"), num("2")))];
    let c = run(vec![file("Start.yarn", vec![node("Start", body)])], Vec::new(), CompilationType::FullCompilation).unwrap();
    assert_eq!(find(&c, "$x").ty, Some(Type::Boolean));
}

#[test]
fn if_statement_code_and_condition() {
    let ifs = Statement::If(IfStatement {
        clauses: vec![IfClause { context: ctx("<<if $go>>"), condition: var("$go"), body: vec![line("Yes", &["line:yes"])] }],
        else_body: vec![line("No", &["line:no"])],
    });
    let c = run(vec![file("Start.yarn", vec![node("Start", vec![ifs])])], Vec::new(), CompilationType::FullCompilation).unwrap();
    assert_eq!(find(&c, "$go").ty, Some(Type::Boolean));
    let code = program_text(&c, 0);
    assert_eq!(
        code,
        vec![
            "PUSH_VARIABLE $go".to_string(),
            "JUMP_IF_FALSE 4".to_string(),
            "RUN_LINE line:yes 0".to_string(),
            "JUMP_TO 5".to_string(),
            "RUN_LINE line:no 0".to_string(),
            "STOP".to_string(),
        ]
    );
}

#[test]
fn if_condition_must_be_boolean() {
    let ifs = Statement::If(IfStatement {
        clauses: vec![IfClause { context: ctx("<<if 1>>"), condition: num("1"), body: Vec::new() }],
        else_body: Vec::new(),
    });
    let e = run(vec![file("Start.yarn", vec![node("Start", vec![ifs])])], Vec::new(), CompilationType::FullCompilation).unwrap_err();
    assert!(error_messages(&e).contains(&"The condition of an if statement must be Bool, not Number".to_string()));
}

#[test]
fn jump_code() {
    let body = vec![
        Statement::Jump(JumpStatement { context: ctx("<<jump Other>>"), target: JumpTarget::Node("Other".to_string()) }),
        Statement::Jump(JumpStatement {
            context: ctx("<<jump {$t}>>"),
            target: JumpTarget::Expression(value("\"Other\"", ValueNode::String("Other".to_string()))),
        }),
    ];
    let c = run(vec![file("Start.yarn", vec![node("Start", body), node("Other", Vec::new())])], Vec::new(), CompilationType::FullCompilation).unwrap();
    let code = program_text(&c, 0);
    assert_eq!(code, vec!["RUN_NODE Other", "PUSH_STRING Other", "RUN_NODE_EXPR", "STOP"]);
    assert_eq!(c.program.as_ref().unwrap().nodes.len(), 2);
}

#[test]
fn line_with_expression_uses_placeholders() {
    let statement = Statement::Line(LineStatement {
        context: ctx("Hi {$name}!"),
        segments: vec![
            LineSegment::Text("Hi ".to_string()),
            LineSegment::Expression(value("\"Bob\"", ValueNode::String("Bob".to_string()))),
            LineSegment::Text("!".to_string()),
        ],
        hashtags: vec!["line:hi".to_string()],
    });
    let c = run(vec![file("Start.yarn", vec![node("Start", vec![statement])])], Vec::new(), CompilationType::FullCompilation).unwrap();
    assert_eq!(c.string_table.entries[0].1.text, "Hi {0}!");
    assert_eq!(program_text(&c, 0), vec!["PUSH_STRING Bob", "RUN_LINE line:hi 1", "STOP"]);
}

fn unresolved_in_line() -> Vec<FileParseResult> {
    let statement = Statement::Line(LineStatement {
        context: ctx("Hi {$y}"),
        segments: vec![LineSegment::Text("Hi ".to_string()), LineSegment::Expression(var("$y"))],
        hashtags: vec!["line:hi".to_string()],
    });
    vec![file("Start.yarn", vec![node("Start", vec![statement])])]
}

#[test]
fn type_check_mode_keeps_undetermined_as_warnings() {
    let c = run(unresolved_in_line(), Vec::new(), CompilationType::TypeCheck).unwrap();
    assert_eq!(c.warnings.len(), 1);
    assert_eq!(c.warnings[0].severity, Severity::Warning);
    assert!(c.warnings[0].message.starts_with("Can't figure out the type of variable $y"));
    let e = run(unresolved_in_line(), Vec::new(), CompilationType::FullCompilation).unwrap_err();
    assert_eq!(e.diagnostics.len(), 1);
}

#[test]
fn declarations_only_has_no_program() {
    let body = vec![set("$x", num("1"))];
    let c = run(vec![file("Start.yarn", vec![node("Start", body)])], Vec::new(), CompilationType::DeclarationsOnly).unwrap();
    assert!(c.program.is_none());
    assert_eq!(c.declarations.len(), 1);
}

#[test]
fn combine_single_program_keeps_it() {
    let a = run(explicit_source(), Vec::new(), CompilationType::FullCompilation).unwrap();
    let text = program_text(&a, 0);
    let single = yarn_compiler::program::Program::combine(vec![a.program.unwrap()]).unwrap();
    let rendered: Vec<String> = single.nodes[0].instructions.iter().map(render).collect();
    assert_eq!(rendered, text);
    assert!(yarn_compiler::program::Program::combine(Vec::new()).is_none());
}

#[test]
fn combine_compilations() {
    let a = run(explicit_source(), Vec::new(), CompilationType::FullCompilation).unwrap();
    let other = vec![file("Other.yarn", vec![node("Other", vec![line("One", &[])])])];
    let b = run(other, Vec::new(), CompilationType::FullCompilation).unwrap();
    let mut table = yarn_compiler::string_table::StringTableManager::new();
    table.extend(b.string_table);
    let combined = Compilation::combine(vec![a, Compilation {
        program: b.program,
        string_table: yarn_compiler::string_table::StringTableManager::new(),
        declarations: Vec::new(),
        contains_implicit_string_tags: false,
        file_tags: Vec::new(),
        warnings: Vec::new(),
        debug_info: Vec::new(),
    }], table);
    assert_eq!(combined.program.unwrap().nodes.len(), 2);
    assert!(combined.contains_implicit_string_tags);
}

#[test]
fn compilation_error_text() {
    let d = Diagnostic {
        file_name: "Start.yarn".to_string(),
        range: Range { start: Position { line: 12, character: 7 }, end: Position { line: 12, character: 9 } },
        message: "bad".to_string(),
        context: String::new(),
        severity: Severity::Error,
    };
    assert_eq!(d.to_text(), "Start.yarn:12:7: error: bad");
    let e = CompilationError { diagnostics: vec![d.duplicate(), d] };
    assert_eq!(e.to_text(), "Start.yarn:12:7: error: bad\nStart.yarn:12:7: error: bad\n");
}

fn declare(name: &str, v: Expression, annotation: Option<Type>) -> Statement {
    Statement::Declare(yarn_compiler::tree::DeclareStatement {
        context: ctx("<<declare>>"),
        variable: var_node(name),
        value: v,
        type_annotation: annotation,
    })
}

#[test]
fn explicit_declaration_types_later_uses() {
    let body = vec![
        declare("$name", value("\"Ann\"", ValueNode::String("Ann".to_string())), None),
        set("$greeting", bin(Operator::Add, var("$name"), value("\"!\"", ValueNode::String("!".to_string())))),
    ];
    let c = run(vec![file("Start.yarn", vec![node("Start", body)])], Vec::new(), CompilationType::FullCompilation).unwrap();
    let name = find(&c, "$name");
    assert!(!name.is_implicit);
    assert_eq!(name.ty, Some(Type::String));
    assert!(matches!(&name.default_value, Some(Value::String(s)) if s == "Ann"));
    assert_eq!(find(&c, "$greeting").ty, Some(Type::String));
}

#[test]
fn declaration_annotation_must_match_value() {
    let body = vec![declare("$n", num("1"), Some(Type::String))];
    let e = run(vec![file("Start.yarn", vec![node("Start", body)])], Vec::new(), CompilationType::FullCompilation).unwrap_err();
    assert_eq!(error_messages(&e), vec!["$n is declared as String, but its value is a Number".to_string()]);
}

#[test]
fn redeclaration_rules() {
    let same = vec![declare("$n", num("1"), None), declare("$n", num("2"), Some(Type::Number))];
    let c = run(vec![file("Start.yarn", vec![node("Start", same)])], Vec::new(), CompilationType::FullCompilation).unwrap();
    assert_eq!(c.warnings.len(), 1);
    assert_eq!(c.warnings[0].message, "Variable $n is declared more than once");
    let other = vec![declare("$n", num("1"), None), declare("$n", value("true", ValueNode::True), None)];
    let e = run(vec![file("Start.yarn", vec![node("Start", other)])], Vec::new(), CompilationType::FullCompilation).unwrap_err();
    assert_eq!(error_messages(&e), vec!["Variable $n is already declared with another type".to_string()]);
}

#[test]
fn declaration_value_must_be_constant() {
    let body = vec![declare("$n", bin(Operator::Add, num("1"), num("2")), None)];
    let e = run(vec![file("Start.yarn", vec![node("Start", body)])], Vec::new(), CompilationType::FullCompilation).unwrap_err();
    assert_eq!(error_messages(&e), vec!["The value of $n must be a constant".to_string()]);
}

fn line_statement(text: &str, tag: &str) -> LineStatement {
    LineStatement { context: ctx(text), segments: vec![LineSegment::Text(text.to_string())], hashtags: vec![tag.to_string()] }
}

#[test]
fn options_code() {
    let options = Statement::Options(OptionsStatement {
        context: ctx("-> A"),
        options: vec![
            ShortcutOption { line: line_statement("A", "line:a"), condition: None, body: vec![line("A1", &["line:a1"])] },
            ShortcutOption { line: line_statement("B", "line:b"), condition: Some(var("$ok")), body: Vec::new() },
        ],
    });
    let c = run(vec![file("Start.yarn", vec![node("Start", vec![options])])], Vec::new(), CompilationType::FullCompilation).unwrap();
    assert_eq!(find(&c, "$ok").ty, Some(Type::Boolean));
    assert_eq!(line_ids(&c), vec!["line:a".to_string(), "line:b".to_string(), "line:a1".to_string()]);
    assert_eq!(
        program_text(&c, 0),
        vec![
            "ADD_OPTION line:a 5 false",
            "PUSH_VARIABLE $ok",
            "ADD_OPTION line:b 7 true",
            "SHOW_OPTIONS",
            "JUMP",
            "RUN_LINE line:a1 0",
            "JUMP_TO 8",
            "JUMP_TO 8",
            "STOP",
        ]
    );
}

#[test]
fn node_tags_from_header() {
    let tags = vec![Header { key: "tags".to_string(), value: "intro  calm".to_string() }];
    let c = run(vec![file("Start.yarn", vec![node_with("Start", tags, Vec::new())])], Vec::new(), CompilationType::FullCompilation).unwrap();
    assert_eq!(c.program.as_ref().unwrap().nodes[0].tags, vec!["intro".to_string(), "calm".to_string()]);
    assert_eq!(c.debug_info.len(), 1);
    assert_eq!(c.debug_info[0].node_name, "Start");
}

fn text_value(t: &str) -> Expression {
    value(t, ValueNode::String(t.to_string()))
}

#[test]
fn operator_not_permitted_for_type() {
    let body = vec![set("$x", bin(Operator::Subtract, text_value("a"), text_value("b")))];
    let e = run(vec![file("Start.yarn", vec![node("Start", body)])], Vec::new(), CompilationType::FullCompilation).unwrap_err();
    assert_eq!(error_messages(&e), vec!["Operator '-' cannot be used with String values".to_string()]);
}

#[test]
fn assignment_of_another_type() {
    let body = vec![set("$x", num("1")), set("$x", text_value("a"))];
    let e = run(vec![file("Start.yarn", vec![node("Start", body)])], Vec::new(), CompilationType::FullCompilation).unwrap_err();
    assert_eq!(error_messages(&e), vec!["$x (Number) cannot be assigned a String".to_string()]);
}

#[test]
fn jump_destination_must_be_string() {
    let body = vec![Statement::Jump(JumpStatement { context: ctx("<<jump {1}>>"), target: JumpTarget::Expression(num("1")) })];
    let e = run(vec![file("Start.yarn", vec![node("Start", body)])], Vec::new(), CompilationType::FullCompilation).unwrap_err();
    assert_eq!(error_messages(&e), vec!["The destination of a jump must be String, not Number".to_string()]);
}

#[test]
fn emitter_reports_missing_line_id() {
    let mut emitter = yarn_compiler::codegen::NodeEmitter::new(Vec::new());
    let r = emitter.emit_statement(&line("Hi", &[]));
    assert_eq!(r, Err("a line has no id".to_string()));
}

#[test]
fn unresolved_label_is_an_internal_error() {
    let mut code = vec![yarn_compiler::codegen::unary_instruction(OpCode::JumpTo, Operand::String("nowhere".to_string()))];
    let r = yarn_compiler::codegen::resolve_labels(&mut code, &vec![("somewhere".to_string(), 0)]);
    assert!(r.is_err());
    let mut code = vec![yarn_compiler::codegen::unary_instruction(OpCode::JumpTo, Operand::String("somewhere".to_string()))];
    let r = yarn_compiler::codegen::resolve_labels(&mut code, &vec![("somewhere".to_string(), 0)]);
    assert!(r.is_ok());
    assert_eq!(render(&code[0]), "JUMP_TO 0");
}

#[test]
fn combine_merges_nodes_by_name() {
    let a = run(explicit_source(), Vec::new(), CompilationType::FullCompilation).unwrap();
    let b = run(explicit_source(), Vec::new(), CompilationType::FullCompilation).unwrap();
    let text = program_text(&a, 0);
    let both = yarn_compiler::program::Program::combine(vec![a.program.unwrap(), b.program.unwrap()]).unwrap();
    assert_eq!(both.nodes.len(), 1);
    let rendered: Vec<String> = both.nodes[0].instructions.iter().map(render).collect();
    assert_eq!(rendered, text);
}

#[test]
fn empty_nodes_compile_in_every_mode() {
    for t in [CompilationType::FullCompilation, CompilationType::StringsOnly, CompilationType::DeclarationsOnly, CompilationType::TypeCheck] {
        let files = vec![file("A.yarn", vec![node("A", Vec::new()), node("B", Vec::new())])];
        assert!(run(files, Vec::new(), t).is_ok());
    }
}
