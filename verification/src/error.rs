use vstd::prelude::*;
use crate::span::Span;

verus! {

/// The character of a decimal digit.
pub open spec fn digit_char(d: nat) -> char {
    if d == 0 {
        '0'
    } else if d == 1 {
        '1'
    } else if d == 2 {
        '2'
    } else if d == 3 {
        '3'
    } else if d == 4 {
        '4'
    } else if d == 5 {
        '5'
    } else if d == 6 {
        '6'
    } else if d == 7 {
        '7'
    } else if d == 8 {
        '8'
    } else {
        '9'
    }
}

/// The decimal notation of a natural number, without leading zeros.
pub open spec fn decimal(n: nat) -> Seq<char>
    decreases n,
{
    if n < 10 {
        seq![digit_char(n)]
    } else {
        decimal(n / 10).push(digit_char(n % 10))
    }
}

fn digit_string(d: usize) -> (s: String)
    requires
        d < 10,
    ensures
        s@ == seq![digit_char(d as nat)],
{
    let lit: &str = if d == 0 {
        proof { reveal_strlit("0"); }
        "0"
    } else if d == 1 {
        proof { reveal_strlit("1"); }
        "1"
    } else if d == 2 {
        proof { reveal_strlit("2"); }
        "2"
    } else if d == 3 {
        proof { reveal_strlit("3"); }
        "3"
    } else if d == 4 {
        proof { reveal_strlit("4"); }
        "4"
    } else if d == 5 {
        proof { reveal_strlit("5"); }
        "5"
    } else if d == 6 {
        proof { reveal_strlit("6"); }
        "6"
    } else if d == 7 {
        proof { reveal_strlit("7"); }
        "7"
    } else if d == 8 {
        proof { reveal_strlit("8"); }
        "8"
    } else {
        proof { reveal_strlit("9"); }
        "9"
    };
    String::from_str(lit)
}

/// The decimal notation of `n`.
pub fn decimal_string(n: usize) -> (s: String)
    ensures
        s@ == decimal(n as nat),
    decreases n,
{
    if n < 10 {
        digit_string(n)
    } else {
        let mut s = decimal_string(n / 10);
        let d = digit_string(n % 10);
        s.append(d.as_str());
        s
    }
}

/// What went wrong, with the names the message mentions.
#[derive(Debug, Clone, PartialEq, Eq)]
pub enum SemanticErrorKind {
    DuplicateType { name: String },
    DuplicateFunction { name: String },
    DuplicateParameter { function: String, param: String },
    TypeMismatch { expected: String, found: String },
    CyclicInheritance { name: String },
    InvalidAssignmentTarget,
    InvalidCast { from: String, to: String },
    InvalidConditionType { found: String },
    InvalidBinaryOperation { operator: String, left: String, right: String },
    IncomparableTypes { left: String, right: String },
    ImpossibleTypeCheck { expr: String, target: String },
    UnknownType { name: String },
    InvalidOperatorOperand { operator: String, expected: String, found: String },
    NotAFunction { name: String },
    UndefinedFunction { name: String },
    InvalidFunctionArity { name: String, expected: usize, found: usize },
    FunctionArgumentTypeMismatch { name: String, index: usize, expected: String, found: String },
    InvalidBaseUsage,
    BaseTakesNoArguments,
    UndefinedBaseMethod { ty_name: String, method: String },
    InvalidWhileCondition { found: String },
    LetBindingTypeMismatch { expected: String, found: String },
    UnknownTypeInLetAnnotation { name: String },
    InvalidConstructorArity { ty_name: String, expected: usize, found: usize },
    ConstructorArgumentTypeMismatch { ty_name: String, param: String, expected: String, found: String },
    UnknownAttribute { ty_name: String, attribute: String },
    InvalidMethodArity { method: String, expected: usize, found: usize },
    MethodArgumentTypeMismatch { method: String, index: usize, expected: String, found: String },
    UnknownMethod { ty_name: String, method: String },
    NotAVariable { name: String },
    UndefinedVariable { name: String },
    InvalidUnaryOperation { operator: String, operand: String },
    InvalidInheritanceFromPrimitive { child: String, parent: String },
    UnknownTypeInParameter { ty_name: String, param_name: String },
    UnknownReturnType { function: String, ty_name: String },
    FunctionReturnTypeMismatch { function: String, expected: String, found: String },
    UnknownTypeInFunctionParameter { function: String, param: String, ty_name: String },
    DuplicateConstructorParameter { ty_name: String, param: String },
    InvalidInheritanceArity { parent: String, expected: usize, found: usize },
    InheritanceArgumentTypeMismatch { parent: String, param: String, expected: String, found: String },
    UnknownParentType { child: String, parent: String },
    UnknownTypeInAttribute { ty_name: String, attribute: String },
    AttributeTypeMismatch { attribute: String, expected: String, found: String },
    DuplicateAttribute { ty_name: String, attribute: String },
    UnknownReturnTypeInMethod { method: String, ty_name: String },
    MethodReturnTypeMismatch { method: String, expected: String, found: String },
    UnknownTypeInMethodParameter { method: String, param: String, ty_name: String },
    InvalidOverrideArity { method: String, found: usize, expected: usize },
    InvalidOverrideReturnType { method: String, found: String, expected: String },
    InvalidOverrideParameterType { method: String, param_name: String, found: String, expected: String },
    InvalidPropertyAccess,
    ProtocolNotAllowedAsParameterType { ty_name: String, param_name: String },
    /// A generic function whose instantiation needs itself, or nests too deeply.
    GenericInferenceFailed { function: String },
    CyclicProtocolExtension { protocol_name: String },
    ProtocolMethodCollision { protocol_name: String, method_name: String },
    GenericMethodOverrideNotAllowed { method: String, ty_name: String },
}

/// The message shown for an error of the given kind.
pub open spec fn message_text(kind: SemanticErrorKind) -> Seq<char> {
    match kind {
        SemanticErrorKind::DuplicateType { name } => "duplicate type '"@ + name@ + "'"@,
        SemanticErrorKind::DuplicateFunction { name } => "duplicate function '"@ + name@ + "'"@,
        SemanticErrorKind::DuplicateParameter { function, param } => "parameter '"@ + param@ + "' is already defined in function '"@ + function@ + "'"@,
        SemanticErrorKind::TypeMismatch { expected, found } => "type mismatch: expected '"@ + expected@ + "', found '"@ + found@ + "'"@,
        SemanticErrorKind::CyclicInheritance { name } => "cyclic inheritance detected at type '"@ + name@ + "'"@,
        SemanticErrorKind::InvalidAssignmentTarget => "invalid assignment target"@,
        SemanticErrorKind::InvalidCast { from, to } => "cannot cast expression of type '"@ + from@ + "' to completely unrelated type '"@ + to@ + "'"@,
        SemanticErrorKind::InvalidConditionType { found } => "'if' condition must be 'Boolean', but found '"@ + found@ + "'"@,
        SemanticErrorKind::InvalidBinaryOperation { operator, left, right } => "operator '"@ + operator@ + "' requires both operands to be of compatible types: either both Strings, or one String and one Number. Received left: '"@ + left@ + "', right: '"@ + right@ + "'"@,
        SemanticErrorKind::IncomparableTypes { left, right } => "cannot compare completely unrelated types: '"@ + left@ + "' and '"@ + right@ + "'"@,
        SemanticErrorKind::ImpossibleTypeCheck { expr, target } => "expression of type '"@ + expr@ + "' can never be an instance of '"@ + target@ + "'"@,
        SemanticErrorKind::UnknownType { name } => "type '"@ + name@ + "' does not exist in the current scope"@,
        SemanticErrorKind::InvalidOperatorOperand { operator, expected, found } => "operator '"@ + operator@ + "' expects type '"@ + expected@ + "', but found '"@ + found@ + "'"@,
        SemanticErrorKind::NotAFunction { name } => "identifier '"@ + name@ + "' is a variable, not a function"@,
        SemanticErrorKind::UndefinedFunction { name } => "function or method '"@ + name@ + "' is not defined in this scope"@,
        SemanticErrorKind::InvalidFunctionArity { name, expected, found } => "function '"@ + name@ + "' expects '"@ + decimal(expected as nat) + "' arguments, but '"@ + decimal(found as nat) + "' were provided"@,
        SemanticErrorKind::FunctionArgumentTypeMismatch { name, index, expected, found } => "type mismatch in call to '"@ + name@ + "': argument '"@ + decimal(index as nat) + "' expects '"@ + expected@ + "', found '"@ + found@ + "'"@,
        SemanticErrorKind::InvalidBaseUsage => "base() can only be used inside a type method"@,
        SemanticErrorKind::BaseTakesNoArguments => "base() does not take explicit arguments"@,
        SemanticErrorKind::UndefinedBaseMethod { ty_name, method } => "no ancestor of type '"@ + ty_name@ + "' implements the method '"@ + method@ + "'"@,
        SemanticErrorKind::InvalidWhileCondition { found } => "'while' condition must be 'Boolean', but found '"@ + found@ + "'"@,
        SemanticErrorKind::LetBindingTypeMismatch { expected, found } => "type mismatch in let binding: cannot assign '"@ + found@ + "' to explicit type '"@ + expected@ + "'"@,
        SemanticErrorKind::UnknownTypeInLetAnnotation { name } => "non-existent type '"@ + name@ + "' in let type annotation"@,
        SemanticErrorKind::InvalidConstructorArity { ty_name, expected, found } => "type '"@ + ty_name@ + "' constructor expects '"@ + decimal(expected as nat) + "' arguments, but '"@ + decimal(found as nat) + "' were provided"@,
        SemanticErrorKind::ConstructorArgumentTypeMismatch { ty_name, param, expected, found } => "type mismatch in instantiation of '"@ + ty_name@ + "': parameter '"@ + param@ + "' expects '"@ + expected@ + "', found '"@ + found@ + "'"@,
        SemanticErrorKind::UnknownAttribute { ty_name, attribute } => "type '"@ + ty_name@ + "' has no attribute named '"@ + attribute@ + "'"@,
        SemanticErrorKind::InvalidMethodArity { method, expected, found } => "method '"@ + method@ + "' expects '"@ + decimal(expected as nat) + "' arguments, but '"@ + decimal(found as nat) + "' were provided"@,
        SemanticErrorKind::MethodArgumentTypeMismatch { method, index, expected, found } => "type mismatch in method '"@ + method@ + "' call: argument '"@ + decimal(index as nat) + "' expects '"@ + expected@ + "', found '"@ + found@ + "'"@,
        SemanticErrorKind::UnknownMethod { ty_name, method } => "type '"@ + ty_name@ + "' has no method named '"@ + method@ + "'"@,
        SemanticErrorKind::NotAVariable { name } => "identifier '"@ + name@ + "' is a function, not a variable"@,
        SemanticErrorKind::UndefinedVariable { name } => "variable, parameter or attribute '"@ + name@ + "' is not defined in this scope"@,
        SemanticErrorKind::InvalidUnaryOperation { operator, operand } => "operator '"@ + operator@ + "' cannot be applied to type '"@ + operand@ + "'"@,
        SemanticErrorKind::InvalidInheritanceFromPrimitive { child, parent } => "type '"@ + child@ + "' cannot inherit from primitive type '"@ + parent@ + "'"@,
        SemanticErrorKind::UnknownTypeInParameter { ty_name, param_name } => "non-existent type '"@ + ty_name@ + "' for parameter '"@ + param_name@ + "'"@,
        SemanticErrorKind::UnknownReturnType { function, ty_name } => "non-existent return type '"@ + ty_name@ + "' in function '"@ + function@ + "'"@,
        SemanticErrorKind::FunctionReturnTypeMismatch { function, expected, found } => "type mismatch in '"@ + function@ + "': body returns '"@ + found@ + "' but expected '"@ + expected@ + "'"@,
        SemanticErrorKind::UnknownTypeInFunctionParameter { function, param, ty_name } => "non-existent type '"@ + ty_name@ + "' for parameter '"@ + param@ + "' in '"@ + function@ + "'"@,
        SemanticErrorKind::DuplicateConstructorParameter { ty_name, param } => "parameter '"@ + param@ + "' is already defined in the constructor of type '"@ + ty_name@ + "'"@,
        SemanticErrorKind::InvalidInheritanceArity { parent, expected, found } => "type '"@ + parent@ + "' expects '"@ + decimal(expected as nat) + "' arguments in its constructor, but '"@ + decimal(found as nat) + "' were passed"@,
        SemanticErrorKind::InheritanceArgumentTypeMismatch { parent, param, expected, found } => "incompatible type in inheritance argument '"@ + param@ + "' of '"@ + parent@ + "': inferred '"@ + found@ + "' but expected '"@ + expected@ + "'"@,
        SemanticErrorKind::UnknownParentType { child, parent } => "type '"@ + child@ + "' attempts to inherit from non-existent type '"@ + parent@ + "'"@,
        SemanticErrorKind::UnknownTypeInAttribute { ty_name, attribute } => "non-existent type '"@ + ty_name@ + "' for attribute '"@ + attribute@ + "'"@,
        SemanticErrorKind::AttributeTypeMismatch { attribute, expected, found } => "incompatible type in attribute '"@ + attribute@ + "': cannot assign '"@ + found@ + "' to '"@ + expected@ + "'"@,
        SemanticErrorKind::DuplicateAttribute { ty_name, attribute } => "attribute '"@ + attribute@ + "' is already defined in type '"@ + ty_name@ + "' or its ancestors"@,
        SemanticErrorKind::UnknownReturnTypeInMethod { method, ty_name } => "non-existent return type '"@ + ty_name@ + "' in method '"@ + method@ + "'"@,
        SemanticErrorKind::MethodReturnTypeMismatch { method, expected, found } => "method '"@ + method@ + "' must return '"@ + expected@ + "' but its body returns '"@ + found@ + "'"@,
        SemanticErrorKind::UnknownTypeInMethodParameter { method, param, ty_name } => "non-existent type '"@ + ty_name@ + "' for parameter '"@ + param@ + "' in method '"@ + method@ + "'"@,
        SemanticErrorKind::InvalidOverrideArity { method, found, expected } => "override method '"@ + method@ + "' has '"@ + decimal(found as nat) + "' parameter(s), but its parent declaration expects '"@ + decimal(expected as nat) + "'"@,
        SemanticErrorKind::InvalidOverrideReturnType { method, found, expected } => "the return type '"@ + found@ + "' of override method '"@ + method@ + "' does not match the parent's expected return type '"@ + expected@ + "'"@,
        SemanticErrorKind::InvalidOverrideParameterType { method, param_name, found, expected } => "parameter '"@ + param_name@ + "' of override method '"@ + method@ + "' has type '"@ + found@ + "', but parent method expects '"@ + expected@ + "'"@,
        SemanticErrorKind::InvalidPropertyAccess => "properties are private and can only be accessed via 'self'"@,
        SemanticErrorKind::ProtocolNotAllowedAsParameterType { ty_name, param_name } => "protocol '"@ + ty_name@ + "' cannot be used as the type of parameter '"@ + param_name@ + "'"@,
        SemanticErrorKind::GenericInferenceFailed { function } => "cannot infer the types of generic function '"@ + function@ + "': its instantiation depends on itself"@,
        SemanticErrorKind::CyclicProtocolExtension { protocol_name } => "cyclic protocol extension detected at protocol '"@ + protocol_name@ + "'"@,
        SemanticErrorKind::ProtocolMethodCollision { protocol_name, method_name } => "method '"@ + method_name@ + "' of protocol '"@ + protocol_name@ + "' collides with a method of the same name in an extended protocol"@,
        SemanticErrorKind::GenericMethodOverrideNotAllowed { method, ty_name } => "method '"@ + method@ + "' of type '"@ + ty_name@ + "' has unannotated parameters and cannot override a parent method"@,
    }
}

impl SemanticErrorKind {
    /// The message shown for this error.
    pub fn message(&self) -> (s: String)
        ensures
            s@ == message_text(*self),
    {
        match self {
            SemanticErrorKind::DuplicateType { name } => {
                let mut s = String::from_str("duplicate type '");
                s.append(name.as_str());
                s.append("'");
                s
            },
            SemanticErrorKind::DuplicateFunction { name } => {
                let mut s = String::from_str("duplicate function '");
                s.append(name.as_str());
                s.append("'");
                s
            },
            SemanticErrorKind::DuplicateParameter { function, param } => {
                let mut s = String::from_str("parameter '");
                s.append(param.as_str());
                s.append("' is already defined in function '");
                s.append(function.as_str());
                s.append("'");
                s
            },
            SemanticErrorKind::TypeMismatch { expected, found } => {
                let mut s = String::from_str("type mismatch: expected '");
                s.append(expected.as_str());
                s.append("', found '");
                s.append(found.as_str());
                s.append("'");
                s
            },
            SemanticErrorKind::CyclicInheritance { name } => {
                let mut s = String::from_str("cyclic inheritance detected at type '");
                s.append(name.as_str());
                s.append("'");
                s
            },
            SemanticErrorKind::InvalidAssignmentTarget => {
                let mut s = String::from_str("invalid assignment target");
                s
            },
            SemanticErrorKind::InvalidCast { from, to } => {
                let mut s = String::from_str("cannot cast expression of type '");
                s.append(from.as_str());
                s.append("' to completely unrelated type '");
                s.append(to.as_str());
                s.append("'");
                s
            },
            SemanticErrorKind::InvalidConditionType { found } => {
                let mut s = String::from_str("'if' condition must be 'Boolean', but found '");
                s.append(found.as_str());
                s.append("'");
                s
            },
            SemanticErrorKind::InvalidBinaryOperation { operator, left, right } => {
                let mut s = String::from_str("operator '");
                s.append(operator.as_str());
                s.append("' requires both operands to be of compatible types: either both Strings, or one String and one Number. Received left: '");
                s.append(left.as_str());
                s.append("', right: '");
                s.append(right.as_str());
                s.append("'");
                s
            },
            SemanticErrorKind::IncomparableTypes { left, right } => {
                let mut s = String::from_str("cannot compare completely unrelated types: '");
                s.append(left.as_str());
                s.append("' and '");
                s.append(right.as_str());
                s.append("'");
                s
            },
            SemanticErrorKind::ImpossibleTypeCheck { expr, target } => {
                let mut s = String::from_str("expression of type '");
                s.append(expr.as_str());
                s.append("' can never be an instance of '");
                s.append(target.as_str());
                s.append("'");
                s
            },
            SemanticErrorKind::UnknownType { name } => {
                let mut s = String::from_str("type '");
                s.append(name.as_str());
                s.append("' does not exist in the current scope");
                s
            },
            SemanticErrorKind::InvalidOperatorOperand { operator, expected, found } => {
                let mut s = String::from_str("operator '");
                s.append(operator.as_str());
                s.append("' expects type '");
                s.append(expected.as_str());
                s.append("', but found '");
                s.append(found.as_str());
                s.append("'");
                s
            },
            SemanticErrorKind::NotAFunction { name } => {
                let mut s = String::from_str("identifier '");
                s.append(name.as_str());
                s.append("' is a variable, not a function");
                s
            },
            SemanticErrorKind::UndefinedFunction { name } => {
                let mut s = String::from_str("function or method '");
                s.append(name.as_str());
                s.append("' is not defined in this scope");
                s
            },
            SemanticErrorKind::InvalidFunctionArity { name, expected, found } => {
                let mut s = String::from_str("function '");
                s.append(name.as_str());
                s.append("' expects '");
                let d = decimal_string(*expected);
                s.append(d.as_str());
                s.append("' arguments, but '");
                let d = decimal_string(*found);
                s.append(d.as_str());
                s.append("' were provided");
                s
            },
            SemanticErrorKind::FunctionArgumentTypeMismatch { name, index, expected, found } => {
                let mut s = String::from_str("type mismatch in call to '");
                s.append(name.as_str());
                s.append("': argument '");
                let d = decimal_string(*index);
                s.append(d.as_str());
                s.append("' expects '");
                s.append(expected.as_str());
                s.append("', found '");
                s.append(found.as_str());
                s.append("'");
                s
            },
            SemanticErrorKind::InvalidBaseUsage => {
                let mut s = String::from_str("base() can only be used inside a type method");
                s
            },
            SemanticErrorKind::BaseTakesNoArguments => {
                let mut s = String::from_str("base() does not take explicit arguments");
                s
            },
            SemanticErrorKind::UndefinedBaseMethod { ty_name, method } => {
                let mut s = String::from_str("no ancestor of type '");
                s.append(ty_name.as_str());
                s.append("' implements the method '");
                s.append(method.as_str());
                s.append("'");
                s
            },
            SemanticErrorKind::InvalidWhileCondition { found } => {
                let mut s = String::from_str("'while' condition must be 'Boolean', but found '");
                s.append(found.as_str());
                s.append("'");
                s
            },
            SemanticErrorKind::LetBindingTypeMismatch { expected, found } => {
                let mut s = String::from_str("type mismatch in let binding: cannot assign '");
                s.append(found.as_str());
                s.append("' to explicit type '");
                s.append(expected.as_str());
                s.append("'");
                s
            },
            SemanticErrorKind::UnknownTypeInLetAnnotation { name } => {
                let mut s = String::from_str("non-existent type '");
                s.append(name.as_str());
                s.append("' in let type annotation");
                s
            },
            SemanticErrorKind::InvalidConstructorArity { ty_name, expected, found } => {
                let mut s = String::from_str("type '");
                s.append(ty_name.as_str());
                s.append("' constructor expects '");
                let d = decimal_string(*expected);
                s.append(d.as_str());
                s.append("' arguments, but '");
                let d = decimal_string(*found);
                s.append(d.as_str());
                s.append("' were provided");
                s
            },
            SemanticErrorKind::ConstructorArgumentTypeMismatch { ty_name, param, expected, found } => {
                let mut s = String::from_str("type mismatch in instantiation of '");
                s.append(ty_name.as_str());
                s.append("': parameter '");
                s.append(param.as_str());
                s.append("' expects '");
                s.append(expected.as_str());
                s.append("', found '");
                s.append(found.as_str());
                s.append("'");
                s
            },
            SemanticErrorKind::UnknownAttribute { ty_name, attribute } => {
                let mut s = String::from_str("type '");
                s.append(ty_name.as_str());
                s.append("' has no attribute named '");
                s.append(attribute.as_str());
                s.append("'");
                s
            },
            SemanticErrorKind::InvalidMethodArity { method, expected, found } => {
                let mut s = String::from_str("method '");
                s.append(method.as_str());
                s.append("' expects '");
                let d = decimal_string(*expected);
                s.append(d.as_str());
                s.append("' arguments, but '");
                let d = decimal_string(*found);
                s.append(d.as_str());
                s.append("' were provided");
                s
            },
            SemanticErrorKind::MethodArgumentTypeMismatch { method, index, expected, found } => {
                let mut s = String::from_str("type mismatch in method '");
                s.append(method.as_str());
                s.append("' call: argument '");
                let d = decimal_string(*index);
                s.append(d.as_str());
                s.append("' expects '");
                s.append(expected.as_str());
                s.append("', found '");
                s.append(found.as_str());
                s.append("'");
                s
            },
            SemanticErrorKind::UnknownMethod { ty_name, method } => {
                let mut s = String::from_str("type '");
                s.append(ty_name.as_str());
                s.append("' has no method named '");
                s.append(method.as_str());
                s.append("'");
                s
            },
            SemanticErrorKind::NotAVariable { name } => {
                let mut s = String::from_str("identifier '");
                s.append(name.as_str());
                s.append("' is a function, not a variable");
                s
            },
            SemanticErrorKind::UndefinedVariable { name } => {
                let mut s = String::from_str("variable, parameter or attribute '");
                s.append(name.as_str());
                s.append("' is not defined in this scope");
                s
            },
            SemanticErrorKind::InvalidUnaryOperation { operator, operand } => {
                let mut s = String::from_str("operator '");
                s.append(operator.as_str());
                s.append("' cannot be applied to type '");
                s.append(operand.as_str());
                s.append("'");
                s
            },
            SemanticErrorKind::InvalidInheritanceFromPrimitive { child, parent } => {
                let mut s = String::from_str("type '");
                s.append(child.as_str());
                s.append("' cannot inherit from primitive type '");
                s.append(parent.as_str());
                s.append("'");
                s
            },
            SemanticErrorKind::UnknownTypeInParameter { ty_name, param_name } => {
                let mut s = String::from_str("non-existent type '");
                s.append(ty_name.as_str());
                s.append("' for parameter '");
                s.append(param_name.as_str());
                s.append("'");
                s
            },
            SemanticErrorKind::UnknownReturnType { function, ty_name } => {
                let mut s = String::from_str("non-existent return type '");
                s.append(ty_name.as_str());
                s.append("' in function '");
                s.append(function.as_str());
                s.append("'");
                s
            },
            SemanticErrorKind::FunctionReturnTypeMismatch { function, expected, found } => {
                let mut s = String::from_str("type mismatch in '");
                s.append(function.as_str());
                s.append("': body returns '");
                s.append(found.as_str());
                s.append("' but expected '");
                s.append(expected.as_str());
                s.append("'");
                s
            },
            SemanticErrorKind::UnknownTypeInFunctionParameter { function, param, ty_name } => {
                let mut s = String::from_str("non-existent type '");
                s.append(ty_name.as_str());
                s.append("' for parameter '");
                s.append(param.as_str());
                s.append("' in '");
                s.append(function.as_str());
                s.append("'");
                s
            },
            SemanticErrorKind::DuplicateConstructorParameter { ty_name, param } => {
                let mut s = String::from_str("parameter '");
                s.append(param.as_str());
                s.append("' is already defined in the constructor of type '");
                s.append(ty_name.as_str());
                s.append("'");
                s
            },
            SemanticErrorKind::InvalidInheritanceArity { parent, expected, found } => {
                let mut s = String::from_str("type '");
                s.append(parent.as_str());
                s.append("' expects '");
                let d = decimal_string(*expected);
                s.append(d.as_str());
                s.append("' arguments in its constructor, but '");
                let d = decimal_string(*found);
                s.append(d.as_str());
                s.append("' were passed");
                s
            },
            SemanticErrorKind::InheritanceArgumentTypeMismatch { parent, param, expected, found } => {
                let mut s = String::from_str("incompatible type in inheritance argument '");
                s.append(param.as_str());
                s.append("' of '");
                s.append(parent.as_str());
                s.append("': inferred '");
                s.append(found.as_str());
                s.append("' but expected '");
                s.append(expected.as_str());
                s.append("'");
                s
            },
            SemanticErrorKind::UnknownParentType { child, parent } => {
                let mut s = String::from_str("type '");
                s.append(child.as_str());
                s.append("' attempts to inherit from non-existent type '");
                s.append(parent.as_str());
                s.append("'");
                s
            },
            SemanticErrorKind::UnknownTypeInAttribute { ty_name, attribute } => {
                let mut s = String::from_str("non-existent type '");
                s.append(ty_name.as_str());
                s.append("' for attribute '");
                s.append(attribute.as_str());
                s.append("'");
                s
            },
            SemanticErrorKind::AttributeTypeMismatch { attribute, expected, found } => {
                let mut s = String::from_str("incompatible type in attribute '");
                s.append(attribute.as_str());
                s.append("': cannot assign '");
                s.append(found.as_str());
                s.append("' to '");
                s.append(expected.as_str());
                s.append("'");
                s
            },
            SemanticErrorKind::DuplicateAttribute { ty_name, attribute } => {
                let mut s = String::from_str("attribute '");
                s.append(attribute.as_str());
                s.append("' is already defined in type '");
                s.append(ty_name.as_str());
                s.append("' or its ancestors");
                s
            },
            SemanticErrorKind::UnknownReturnTypeInMethod { method, ty_name } => {
                let mut s = String::from_str("non-existent return type '");
                s.append(ty_name.as_str());
                s.append("' in method '");
                s.append(method.as_str());
                s.append("'");
                s
            },
            SemanticErrorKind::MethodReturnTypeMismatch { method, expected, found } => {
                let mut s = String::from_str("method '");
                s.append(method.as_str());
                s.append("' must return '");
                s.append(expected.as_str());
                s.append("' but its body returns '");
                s.append(found.as_str());
                s.append("'");
                s
            },
            SemanticErrorKind::UnknownTypeInMethodParameter { method, param, ty_name } => {
                let mut s = String::from_str("non-existent type '");
                s.append(ty_name.as_str());
                s.append("' for parameter '");
                s.append(param.as_str());
                s.append("' in method '");
                s.append(method.as_str());
                s.append("'");
                s
            },
            SemanticErrorKind::InvalidOverrideArity { method, found, expected } => {
                let mut s = String::from_str("override method '");
                s.append(method.as_str());
                s.append("' has '");
                let d = decimal_string(*found);
                s.append(d.as_str());
                s.append("' parameter(s), but its parent declaration expects '");
                let d = decimal_string(*expected);
                s.append(d.as_str());
                s.append("'");
                s
            },
            SemanticErrorKind::InvalidOverrideReturnType { method, found, expected } => {
                let mut s = String::from_str("the return type '");
                s.append(found.as_str());
                s.append("' of override method '");
                s.append(method.as_str());
                s.append("' does not match the parent's expected return type '");
                s.append(expected.as_str());
                s.append("'");
                s
            },
            SemanticErrorKind::InvalidOverrideParameterType { method, param_name, found, expected } => {
                let mut s = String::from_str("parameter '");
                s.append(param_name.as_str());
                s.append("' of override method '");
                s.append(method.as_str());
                s.append("' has type '");
                s.append(found.as_str());
                s.append("', but parent method expects '");
                s.append(expected.as_str());
                s.append("'");
                s
            },
            SemanticErrorKind::InvalidPropertyAccess => {
                let mut s = String::from_str("properties are private and can only be accessed via 'self'");
                s
            },
            SemanticErrorKind::ProtocolNotAllowedAsParameterType { ty_name, param_name } => {
                let mut s = String::from_str("protocol '");
                s.append(ty_name.as_str());
                s.append("' cannot be used as the type of parameter '");
                s.append(param_name.as_str());
                s.append("'");
                s
            },
            SemanticErrorKind::GenericInferenceFailed { function } => {
                let mut s = String::from_str("cannot infer the types of generic function '");
                s.append(function.as_str());
                s.append("': its instantiation depends on itself");
                s
            },
            SemanticErrorKind::CyclicProtocolExtension { protocol_name } => {
                let mut s = String::from_str("cyclic protocol extension detected at protocol '");
                s.append(protocol_name.as_str());
                s.append("'");
                s
            },
            SemanticErrorKind::ProtocolMethodCollision { protocol_name, method_name } => {
                let mut s = String::from_str("method '");
                s.append(method_name.as_str());
                s.append("' of protocol '");
                s.append(protocol_name.as_str());
                s.append("' collides with a method of the same name in an extended protocol");
                s
            },
            SemanticErrorKind::GenericMethodOverrideNotAllowed { method, ty_name } => {
                let mut s = String::from_str("method '");
                s.append(method.as_str());
                s.append("' of type '");
                s.append(ty_name.as_str());
                s.append("' has unannotated parameters and cannot override a parent method");
                s
            },
        }
    }
}

/// An error found by the analysis, with the source region it concerns.
#[derive(Debug, Clone, PartialEq, Eq)]
pub struct SemanticError {
    pub kind: SemanticErrorKind,
    pub span: Span,
}

impl SemanticErrorKind {
    /// An equal copy of this kind.
    pub fn duplicate(&self) -> (r: SemanticErrorKind)
        ensures
            r == *self,
    {
        match self {
            SemanticErrorKind::DuplicateType { name } => SemanticErrorKind::DuplicateType { name: name.clone() },
            SemanticErrorKind::DuplicateFunction { name } => SemanticErrorKind::DuplicateFunction { name: name.clone() },
            SemanticErrorKind::DuplicateParameter { function, param } => SemanticErrorKind::DuplicateParameter { function: function.clone(), param: param.clone() },
            SemanticErrorKind::TypeMismatch { expected, found } => SemanticErrorKind::TypeMismatch { expected: expected.clone(), found: found.clone() },
            SemanticErrorKind::CyclicInheritance { name } => SemanticErrorKind::CyclicInheritance { name: name.clone() },
            SemanticErrorKind::InvalidAssignmentTarget => SemanticErrorKind::InvalidAssignmentTarget,
            SemanticErrorKind::InvalidCast { from, to } => SemanticErrorKind::InvalidCast { from: from.clone(), to: to.clone() },
            SemanticErrorKind::InvalidConditionType { found } => SemanticErrorKind::InvalidConditionType { found: found.clone() },
            SemanticErrorKind::InvalidBinaryOperation { operator, left, right } => SemanticErrorKind::InvalidBinaryOperation { operator: operator.clone(), left: left.clone(), right: right.clone() },
            SemanticErrorKind::IncomparableTypes { left, right } => SemanticErrorKind::IncomparableTypes { left: left.clone(), right: right.clone() },
            SemanticErrorKind::ImpossibleTypeCheck { expr, target } => SemanticErrorKind::ImpossibleTypeCheck { expr: expr.clone(), target: target.clone() },
            SemanticErrorKind::UnknownType { name } => SemanticErrorKind::UnknownType { name: name.clone() },
            SemanticErrorKind::InvalidOperatorOperand { operator, expected, found } => SemanticErrorKind::InvalidOperatorOperand { operator: operator.clone(), expected: expected.clone(), found: found.clone() },
            SemanticErrorKind::NotAFunction { name } => SemanticErrorKind::NotAFunction { name: name.clone() },
            SemanticErrorKind::UndefinedFunction { name } => SemanticErrorKind::UndefinedFunction { name: name.clone() },
            SemanticErrorKind::InvalidFunctionArity { name, expected, found } => SemanticErrorKind::InvalidFunctionArity { name: name.clone(), expected: *expected, found: *found },
            SemanticErrorKind::FunctionArgumentTypeMismatch { name, index, expected, found } => SemanticErrorKind::FunctionArgumentTypeMismatch { name: name.clone(), index: *index, expected: expected.clone(), found: found.clone() },
            SemanticErrorKind::InvalidBaseUsage => SemanticErrorKind::InvalidBaseUsage,
            SemanticErrorKind::BaseTakesNoArguments => SemanticErrorKind::BaseTakesNoArguments,
            SemanticErrorKind::UndefinedBaseMethod { ty_name, method } => SemanticErrorKind::UndefinedBaseMethod { ty_name: ty_name.clone(), method: method.clone() },
            SemanticErrorKind::InvalidWhileCondition { found } => SemanticErrorKind::InvalidWhileCondition { found: found.clone() },
            SemanticErrorKind::LetBindingTypeMismatch { expected, found } => SemanticErrorKind::LetBindingTypeMismatch { expected: expected.clone(), found: found.clone() },
            SemanticErrorKind::UnknownTypeInLetAnnotation { name } => SemanticErrorKind::UnknownTypeInLetAnnotation { name: name.clone() },
            SemanticErrorKind::InvalidConstructorArity { ty_name, expected, found } => SemanticErrorKind::InvalidConstructorArity { ty_name: ty_name.clone(), expected: *expected, found: *found },
            SemanticErrorKind::ConstructorArgumentTypeMismatch { ty_name, param, expected, found } => SemanticErrorKind::ConstructorArgumentTypeMismatch { ty_name: ty_name.clone(), param: param.clone(), expected: expected.clone(), found: found.clone() },
            SemanticErrorKind::UnknownAttribute { ty_name, attribute } => SemanticErrorKind::UnknownAttribute { ty_name: ty_name.clone(), attribute: attribute.clone() },
            SemanticErrorKind::InvalidMethodArity { method, expected, found } => SemanticErrorKind::InvalidMethodArity { method: method.clone(), expected: *expected, found: *found },
            SemanticErrorKind::MethodArgumentTypeMismatch { method, index, expected, found } => SemanticErrorKind::MethodArgumentTypeMismatch { method: method.clone(), index: *index, expected: expected.clone(), found: found.clone() },
            SemanticErrorKind::UnknownMethod { ty_name, method } => SemanticErrorKind::UnknownMethod { ty_name: ty_name.clone(), method: method.clone() },
            SemanticErrorKind::NotAVariable { name } => SemanticErrorKind::NotAVariable { name: name.clone() },
            SemanticErrorKind::UndefinedVariable { name } => SemanticErrorKind::UndefinedVariable { name: name.clone() },
            SemanticErrorKind::InvalidUnaryOperation { operator, operand } => SemanticErrorKind::InvalidUnaryOperation { operator: operator.clone(), operand: operand.clone() },
            SemanticErrorKind::InvalidInheritanceFromPrimitive { child, parent } => SemanticErrorKind::InvalidInheritanceFromPrimitive { child: child.clone(), parent: parent.clone() },
            SemanticErrorKind::UnknownTypeInParameter { ty_name, param_name } => SemanticErrorKind::UnknownTypeInParameter { ty_name: ty_name.clone(), param_name: param_name.clone() },
            SemanticErrorKind::UnknownReturnType { function, ty_name } => SemanticErrorKind::UnknownReturnType { function: function.clone(), ty_name: ty_name.clone() },
            SemanticErrorKind::FunctionReturnTypeMismatch { function, expected, found } => SemanticErrorKind::FunctionReturnTypeMismatch { function: function.clone(), expected: expected.clone(), found: found.clone() },
            SemanticErrorKind::UnknownTypeInFunctionParameter { function, param, ty_name } => SemanticErrorKind::UnknownTypeInFunctionParameter { function: function.clone(), param: param.clone(), ty_name: ty_name.clone() },
            SemanticErrorKind::DuplicateConstructorParameter { ty_name, param } => SemanticErrorKind::DuplicateConstructorParameter { ty_name: ty_name.clone(), param: param.clone() },
            SemanticErrorKind::InvalidInheritanceArity { parent, expected, found } => SemanticErrorKind::InvalidInheritanceArity { parent: parent.clone(), expected: *expected, found: *found },
            SemanticErrorKind::InheritanceArgumentTypeMismatch { parent, param, expected, found } => SemanticErrorKind::InheritanceArgumentTypeMismatch { parent: parent.clone(), param: param.clone(), expected: expected.clone(), found: found.clone() },
            SemanticErrorKind::UnknownParentType { child, parent } => SemanticErrorKind::UnknownParentType { child: child.clone(), parent: parent.clone() },
            SemanticErrorKind::UnknownTypeInAttribute { ty_name, attribute } => SemanticErrorKind::UnknownTypeInAttribute { ty_name: ty_name.clone(), attribute: attribute.clone() },
            SemanticErrorKind::AttributeTypeMismatch { attribute, expected, found } => SemanticErrorKind::AttributeTypeMismatch { attribute: attribute.clone(), expected: expected.clone(), found: found.clone() },
            SemanticErrorKind::DuplicateAttribute { ty_name, attribute } => SemanticErrorKind::DuplicateAttribute { ty_name: ty_name.clone(), attribute: attribute.clone() },
            SemanticErrorKind::UnknownReturnTypeInMethod { method, ty_name } => SemanticErrorKind::UnknownReturnTypeInMethod { method: method.clone(), ty_name: ty_name.clone() },
            SemanticErrorKind::MethodReturnTypeMismatch { method, expected, found } => SemanticErrorKind::MethodReturnTypeMismatch { method: method.clone(), expected: expected.clone(), found: found.clone() },
            SemanticErrorKind::UnknownTypeInMethodParameter { method, param, ty_name } => SemanticErrorKind::UnknownTypeInMethodParameter { method: method.clone(), param: param.clone(), ty_name: ty_name.clone() },
            SemanticErrorKind::InvalidOverrideArity { method, found, expected } => SemanticErrorKind::InvalidOverrideArity { method: method.clone(), found: *found, expected: *expected },
            SemanticErrorKind::InvalidOverrideReturnType { method, found, expected } => SemanticErrorKind::InvalidOverrideReturnType { method: method.clone(), found: found.clone(), expected: expected.clone() },
            SemanticErrorKind::InvalidOverrideParameterType { method, param_name, found, expected } => SemanticErrorKind::InvalidOverrideParameterType { method: method.clone(), param_name: param_name.clone(), found: found.clone(), expected: expected.clone() },
            SemanticErrorKind::InvalidPropertyAccess => SemanticErrorKind::InvalidPropertyAccess,
            SemanticErrorKind::ProtocolNotAllowedAsParameterType { ty_name, param_name } => SemanticErrorKind::ProtocolNotAllowedAsParameterType { ty_name: ty_name.clone(), param_name: param_name.clone() },
            SemanticErrorKind::GenericInferenceFailed { function } => SemanticErrorKind::GenericInferenceFailed { function: function.clone() },
            SemanticErrorKind::CyclicProtocolExtension { protocol_name } => SemanticErrorKind::CyclicProtocolExtension { protocol_name: protocol_name.clone() },
            SemanticErrorKind::ProtocolMethodCollision { protocol_name, method_name } => SemanticErrorKind::ProtocolMethodCollision { protocol_name: protocol_name.clone(), method_name: method_name.clone() },
            SemanticErrorKind::GenericMethodOverrideNotAllowed { method, ty_name } => SemanticErrorKind::GenericMethodOverrideNotAllowed { method: method.clone(), ty_name: ty_name.clone() },
        }
    }
}

impl SemanticError {
    pub fn new(kind: SemanticErrorKind, span: Span) -> (e: SemanticError)
        ensures
            e.kind == kind,
            e.span == span,
    {
        SemanticError { kind, span }
    }

    /// An equal copy of this error.
    pub fn duplicate(&self) -> (r: SemanticError)
        ensures
            r == *self,
    {
        SemanticError { kind: self.kind.duplicate(), span: self.span }
    }
}

/// An equal copy of a list of errors.
pub fn copy_errors(v: &Vec<SemanticError>) -> (r: Vec<SemanticError>)
    ensures
        r@ == v@,
{
    let mut r: Vec<SemanticError> = Vec::new();
    let mut i: usize = 0;
    while i < v.len()
        invariant
            i <= v@.len(),
            r@ == v@.take(i as int),
        decreases v.len() - i,
    {
        r.push(v[i].duplicate());
        i = i + 1;
        assert(r@ =~= v@.take(i as int));
    }
    assert(v@.take(i as int) =~= v@);
    r
}

} // verus!
