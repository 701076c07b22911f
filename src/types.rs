use vstd::prelude::*;

verus! {

/// The built-in value types of the dialogue language.
#[derive(Clone, Copy, Debug, PartialEq, Eq, Structural)]
pub enum Type {
    String,
    Number,
    Boolean,
}

/// The name of a type, as diagnostics show it.
pub open spec fn spec_type_name(t: Type) -> Seq<char> {
    match t {
        Type::String => "String"@,
        Type::Number => "Number"@,
        Type::Boolean => "Bool"@,
    }
}

/// The name of an optional type; an unbound type reads as `undefined`.
pub open spec fn spec_option_type_name(t: Option<Type>) -> Seq<char> {
    match t {
        Some(t) => spec_type_name(t),
        None => "undefined"@,
    }
}

/// Subtyping between possibly unbound types. Every built-in type is a
/// subtype only of itself; an unbound type on either side is compatible with
/// anything, since its own diagnostic is raised where it stays unbound.
pub open spec fn is_sub_type_of(sub: Option<Type>, parent: Option<Type>) -> bool {
    sub is None || parent is None || sub == parent
}

impl Type {
    /// The name of the type, as shown in diagnostics.
    pub fn name(&self) -> (r: &'static str)
        ensures
            r@ == spec_type_name(*self),
    {
        match self {
            Type::String => "String",
            Type::Number => "Number",
            Type::Boolean => "Bool",
        }
    }

    /// Every type that a program can construct explicitly, in a fixed order.
    pub fn explicitly_constructable() -> (r: Vec<Type>)
        ensures
            r@ == all_types(),
    {
        vec![Type::String, Type::Number, Type::Boolean]
    }
}

pub open spec fn all_types() -> Seq<Type> {
    seq![Type::String, Type::Number, Type::Boolean]
}

/// Name of an optional type, `undefined` when unbound.
pub fn option_type_name(t: Option<Type>) -> (r: &'static str)
    ensures
        r@ == spec_option_type_name(t),
{
    match t {
        Some(t) => t.name(),
        None => "undefined",
    }
}

/// Executable form of [`is_sub_type_of`].
pub fn sub_type_of(sub: Option<Type>, parent: Option<Type>) -> (r: bool)
    ensures
        r == is_sub_type_of(sub, parent),
{
    match (sub, parent) {
        (Some(s), Some(p)) => s == p,
        _ => true,
    }
}

/// The type of a function: one optional type per parameter and an optional
/// return type. `None` marks a type that has not been bound yet.
#[derive(Debug)]
pub struct FunctionType {
    pub parameters: Vec<Option<Type>>,
    pub return_type: Option<Type>,
}

impl FunctionType {
    /// A function type with the given parameter types and return type.
    pub fn new(parameters: Vec<Option<Type>>, return_type: Option<Type>) -> (r: FunctionType)
        ensures
            r.parameters@ == parameters@,
            r.return_type == return_type,
    {
        FunctionType { parameters, return_type }
    }

    /// A copy with the same parameters and return type.
    pub fn duplicate(&self) -> (r: FunctionType)
        ensures
            r.parameters@ == self.parameters@,
            r.return_type == self.return_type,
    {
        let mut parameters: Vec<Option<Type>> = Vec::new();
        let mut i: usize = 0;
        while i < self.parameters.len()
            invariant
                i <= self.parameters@.len(),
                parameters@ == self.parameters@.subrange(0, i as int),
            decreases self.parameters@.len() - i,
        {
            parameters.push(self.parameters[i]);
            i = i + 1;
        }
        assert(parameters@ =~= self.parameters@);
        FunctionType { parameters, return_type: self.return_type }
    }
}

/// A tagged scalar value. Numbers are held as their decimal text, so that a
/// value passes through compilation exactly as it was written.
#[derive(Debug)]
pub enum Value {
    Number(String),
    String(String),
    Boolean(bool),
}

/// The tag of a value.
pub open spec fn value_type(v: Value) -> Type {
    match v {
        Value::Number(_) => Type::Number,
        Value::String(_) => Type::String,
        Value::Boolean(_) => Type::Boolean,
    }
}

/// Whether `v` is the default value of `t`: number `0`, the empty string,
/// `false`.
pub open spec fn is_default_value(v: Value, t: Type) -> bool {
    match v {
        Value::Number(s) => t == Type::Number && s@ == seq!['0'],
        Value::String(s) => t == Type::String && s@.len() == 0,
        Value::Boolean(b) => t == Type::Boolean && !b,
    }
}

/// Equality of values by content.
pub open spec fn same_value(a: Value, b: Value) -> bool {
    match (a, b) {
        (Value::Number(x), Value::Number(y)) => x@ == y@,
        (Value::String(x), Value::String(y)) => x@ == y@,
        (Value::Boolean(x), Value::Boolean(y)) => x == y,
        _ => false,
    }
}

impl Value {
    /// A copy with the same tag and content.
    pub fn duplicate(&self) -> (r: Value)
        ensures
            same_value(*self, r),
    {
        match self {
            Value::Number(s) => Value::Number(s.clone()),
            Value::String(s) => Value::String(s.clone()),
            Value::Boolean(b) => Value::Boolean(*b),
        }
    }
}

/// The default value of a type, if the type is known.
pub fn default_value_for_type(expression_type: Option<Type>) -> (r: Option<Value>)
    ensures
        expression_type is None <==> r is None,
        r matches Some(v) ==> is_default_value(v, expression_type->0),
{
    match expression_type {
        None => None,
        Some(Type::Number) => {
            proof {
                reveal_strlit("0");
                assert("0"@ =~= seq!['0']);
            }
            Some(Value::Number(String::from_str("0")))
        },
        Some(Type::String) => Some(Value::String(String::new())),
        Some(Type::Boolean) => Some(Value::Boolean(false)),
    }
}

/// The operators of expressions.
#[derive(Clone, Copy, Debug, PartialEq, Eq, Structural)]
pub enum Operator {
    Add,
    Subtract,
    Multiply,
    Divide,
    Modulo,
    UnaryMinus,
    EqualTo,
    NotEqualTo,
    LessThan,
    LessThanOrEqualTo,
    GreaterThan,
    GreaterThanOrEqualTo,
    And,
    Or,
    Xor,
    Not,
}

/// The operand types that an operator accepts; empty where any one type is
/// accepted as long as every operand has it.
pub open spec fn spec_permitted_types(op: Operator) -> Seq<Type> {
    match op {
        Operator::Add => seq![Type::Number, Type::String],
        Operator::Subtract | Operator::Multiply | Operator::Divide | Operator::Modulo
        | Operator::UnaryMinus => seq![Type::Number],
        Operator::EqualTo | Operator::NotEqualTo => seq![],
        Operator::LessThan | Operator::LessThanOrEqualTo | Operator::GreaterThan
        | Operator::GreaterThanOrEqualTo => seq![Type::Number],
        Operator::And | Operator::Or | Operator::Xor | Operator::Not => seq![Type::Boolean],
    }
}

/// Whether values of type `t` support the operator.
pub open spec fn type_supports(t: Type, op: Operator) -> bool {
    match op {
        Operator::EqualTo | Operator::NotEqualTo => true,
        Operator::Add => t == Type::Number || t == Type::String,
        Operator::And | Operator::Or | Operator::Xor | Operator::Not => t == Type::Boolean,
        _ => t == Type::Number,
    }
}

/// Whether the operator yields a boolean whatever its operands are
/// (comparison and equality); the others yield their operands' type.
pub open spec fn yields_boolean(op: Operator) -> bool {
    match op {
        Operator::EqualTo | Operator::NotEqualTo | Operator::LessThan
        | Operator::LessThanOrEqualTo | Operator::GreaterThan
        | Operator::GreaterThanOrEqualTo => true,
        _ => false,
    }
}

/// The operator as written in source.
pub open spec fn spec_operator_symbol(op: Operator) -> Seq<char> {
    match op {
        Operator::Add => "+"@,
        Operator::Subtract => "-"@,
        Operator::Multiply => "*"@,
        Operator::Divide => "/"@,
        Operator::Modulo => "%"@,
        Operator::UnaryMinus => "-"@,
        Operator::EqualTo => "=="@,
        Operator::NotEqualTo => "!="@,
        Operator::LessThan => "<"@,
        Operator::LessThanOrEqualTo => "<="@,
        Operator::GreaterThan => ">"@,
        Operator::GreaterThanOrEqualTo => ">="@,
        Operator::And => "&&"@,
        Operator::Or => "||"@,
        Operator::Xor => "^"@,
        Operator::Not => "!"@,
    }
}

/// The instruction name under which the operator is emitted.
pub open spec fn spec_operator_instruction(op: Operator) -> Seq<char> {
    match op {
        Operator::Add => "ADD"@,
        Operator::Subtract => "SUBTRACT"@,
        Operator::Multiply => "MULTIPLY"@,
        Operator::Divide => "DIVIDE"@,
        Operator::Modulo => "MODULO"@,
        Operator::UnaryMinus => "UNARY_MINUS"@,
        Operator::EqualTo => "EQUAL_TO"@,
        Operator::NotEqualTo => "NOT_EQUAL_TO"@,
        Operator::LessThan => "LESS_THAN"@,
        Operator::LessThanOrEqualTo => "LESS_THAN_OR_EQUAL_TO"@,
        Operator::GreaterThan => "GREATER_THAN"@,
        Operator::GreaterThanOrEqualTo => "GREATER_THAN_OR_EQUAL_TO"@,
        Operator::And => "AND"@,
        Operator::Or => "OR"@,
        Operator::Xor => "XOR"@,
        Operator::Not => "NOT"@,
    }
}

impl Operator {
    /// The operand types that the operator accepts.
    pub fn permitted_types(&self) -> (r: Vec<Type>)
        ensures
            r@ == spec_permitted_types(*self),
    {
        match self {
            Operator::Add => vec![Type::Number, Type::String],
            Operator::Subtract | Operator::Multiply | Operator::Divide | Operator::Modulo
            | Operator::UnaryMinus => vec![Type::Number],
            Operator::EqualTo | Operator::NotEqualTo => Vec::new(),
            Operator::LessThan | Operator::LessThanOrEqualTo | Operator::GreaterThan
            | Operator::GreaterThanOrEqualTo => vec![Type::Number],
            Operator::And | Operator::Or | Operator::Xor | Operator::Not => vec![Type::Boolean],
        }
    }

    /// Whether values of type `t` support the operator.
    pub fn is_supported_by(&self, t: Type) -> (r: bool)
        ensures
            r == type_supports(t, *self),
    {
        match self {
            Operator::EqualTo | Operator::NotEqualTo => true,
            Operator::Add => t == Type::Number || t == Type::String,
            Operator::And | Operator::Or | Operator::Xor | Operator::Not => t == Type::Boolean,
            _ => t == Type::Number,
        }
    }

    /// Whether the operator yields a boolean.
    pub fn yields_boolean(&self) -> (r: bool)
        ensures
            r == yields_boolean(*self),
    {
        match self {
            Operator::EqualTo | Operator::NotEqualTo | Operator::LessThan
            | Operator::LessThanOrEqualTo | Operator::GreaterThan
            | Operator::GreaterThanOrEqualTo => true,
            _ => false,
        }
    }

    /// The operator as written in source.
    pub fn symbol(&self) -> (r: &'static str)
        ensures
            r@ == spec_operator_symbol(*self),
    {
        match self {
            Operator::Add => "+",
            Operator::Subtract => "-",
            Operator::Multiply => "*",
            Operator::Divide => "/",
            Operator::Modulo => "%",
            Operator::UnaryMinus => "-",
            Operator::EqualTo => "==",
            Operator::NotEqualTo => "!=",
            Operator::LessThan => "<",
            Operator::LessThanOrEqualTo => "<=",
            Operator::GreaterThan => ">",
            Operator::GreaterThanOrEqualTo => ">=",
            Operator::And => "&&",
            Operator::Or => "||",
            Operator::Xor => "^",
            Operator::Not => "!",
        }
    }

    /// The instruction name under which the operator is emitted.
    pub fn instruction_name(&self) -> (r: &'static str)
        ensures
            r@ == spec_operator_instruction(*self),
    {
        match self {
            Operator::Add => "ADD",
            Operator::Subtract => "SUBTRACT",
            Operator::Multiply => "MULTIPLY",
            Operator::Divide => "DIVIDE",
            Operator::Modulo => "MODULO",
            Operator::UnaryMinus => "UNARY_MINUS",
            Operator::EqualTo => "EQUAL_TO",
            Operator::NotEqualTo => "NOT_EQUAL_TO",
            Operator::LessThan => "LESS_THAN",
            Operator::LessThanOrEqualTo => "LESS_THAN_OR_EQUAL_TO",
            Operator::GreaterThan => "GREATER_THAN",
            Operator::GreaterThanOrEqualTo => "GREATER_THAN_OR_EQUAL_TO",
            Operator::And => "AND",
            Operator::Or => "OR",
            Operator::Xor => "XOR",
            Operator::Not => "NOT",
        }
    }
}

} // verus!
