use vstd::prelude::*;

verus! {

/// A byte offset into the source text.
#[derive(Clone, Copy)]
pub struct ByteIndex(pub u32);

impl ByteIndex {
    pub fn as_usize(&self) -> (r: usize)
        ensures
            r == self.0,
    {
        self.0 as usize
    }
}

/// A byte range of the source text, `start..end`, in one source file.
#[derive(Clone, Copy)]
pub struct Span {
    pub start: ByteIndex,
    pub end: ByteIndex,
    pub code_source_id: usize,
}

/// The smallest span that covers both spans.
pub open spec fn spec_extend(a: Span, b: Span) -> Span {
    Span {
        start: ByteIndex(if a.start.0 <= b.start.0 { a.start.0 } else { b.start.0 }),
        end: ByteIndex(if a.end.0 <= b.end.0 { b.end.0 } else { a.end.0 }),
        code_source_id: a.code_source_id,
    }
}

impl Span {
    /// The smallest span that covers both spans; both must lie in one source.
    pub fn extend(&self, other: &Span) -> (r: Span)
        requires
            self.code_source_id == other.code_source_id,
        ensures
            r == spec_extend(*self, *other),
    {
        Span {
            start: ByteIndex(if self.start.0 <= other.start.0 { self.start.0 } else { other.start.0 }),
            end: ByteIndex(if self.end.0 <= other.end.0 { other.end.0 } else { self.end.0 }),
            code_source_id: self.code_source_id,
        }
    }
}

pub enum UnaryOperator {
    /// Factorial applied this many times (`x!!` is two).
    Factorial(usize),
    Negate,
    LogicalNeg,
}

pub enum BinaryOperator {
    Add,
    Sub,
    Mul,
    Div,
    Power,
    ConvertTo,
    LessThan,
    GreaterThan,
    LessOrEqual,
    GreaterOrEqual,
    Equal,
    NotEqual,
    LogicalAnd,
    LogicalOr,
}

/// An expression of a numbat program, with the spans of its parts.
#[allow(inconsistent_fields)]
pub enum Expression {
    /// A number: its span and its value printed in canonical form.
    Scalar(Span, String),
    Identifier(Span, String),
    /// A unit with a metric or binary prefix: span, the prefix in short
    /// form, the unit's name as written and its full name.
    UnitIdentifier(Span, String, String, String),
    TypedHole(Span),
    UnaryOperator { op: UnaryOperator, expr: Box<Expression>, span_op: Span },
    BinaryOperator {
        op: BinaryOperator,
        lhs: Box<Expression>,
        rhs: Box<Expression>,
        span_op: Option<Span>,
    },
    /// Call: span of the callee, span of the whole call, callee, arguments.
    FunctionCall(Span, Span, Box<Expression>, Vec<Expression>),
    Boolean(Span, bool),
    /// A string literal, possibly with interpolations.
    StringLiteral(Span, Vec<Expression>),
    /// `if` span, condition, `then` branch, `else` branch.
    Condition(Span, Box<Expression>, Box<Expression>, Box<Expression>),
    InstantiateStruct {
        full_span: Span,
        ident_span: Span,
        name: String,
        fields: Vec<(Span, String, Expression)>,
    },
    /// Field access: whole span, span of the field name, the struct, the field.
    AccessField(Span, Span, Box<Expression>, String),
    List(Span, Vec<Expression>),
}

/// The span of the whole expression; `None` where two spans to be joined
/// lie in different sources.
pub open spec fn spec_full_span(e: Expression) -> Option<Span>
    decreases e,
{
    match e {
        Expression::Scalar(span, _) => Some(span),
        Expression::Identifier(span, _) => Some(span),
        Expression::UnitIdentifier(span, _, _, _) => Some(span),
        Expression::UnaryOperator { op: _, expr, span_op } => match spec_full_span(*expr) {
            Some(s) => if span_op.code_source_id == s.code_source_id {
                Some(spec_extend(span_op, s))
            } else {
                None
            },
            None => None,
        },
        Expression::BinaryOperator { op: _, lhs, rhs, span_op } => match (
            spec_full_span(*lhs),
            spec_full_span(*rhs),
        ) {
            (Some(l), Some(r)) => if l.code_source_id != r.code_source_id {
                None
            } else {
                let span = spec_extend(l, r);
                match span_op {
                    Some(o) => if span.code_source_id == o.code_source_id {
                        Some(spec_extend(span, o))
                    } else {
                        None
                    },
                    None => Some(span),
                }
            },
            _ => None,
        },
        Expression::FunctionCall(_, full_span, _, _) => Some(full_span),
        Expression::Boolean(span, _) => Some(span),
        Expression::StringLiteral(span, _) => Some(span),
        Expression::Condition(span_if, _, _, else_expr) => match spec_full_span(*else_expr) {
            Some(s) => if span_if.code_source_id == s.code_source_id {
                Some(spec_extend(span_if, s))
            } else {
                None
            },
            None => None,
        },
        Expression::TypedHole(span) => Some(span),
        Expression::InstantiateStruct { full_span, .. } => Some(full_span),
        Expression::AccessField(full_span, _, _, _) => Some(full_span),
        Expression::List(full_span, _) => Some(full_span),
    }
}

impl Expression {
    /// The span of the whole expression.
    pub fn full_span(&self) -> (r: Span)
        requires
            spec_full_span(*self) is Some,
        ensures
            r == spec_full_span(*self)->0,
        decreases self,
    {
        match self {
            Expression::Scalar(span, _) => *span,
            Expression::Identifier(span, _) => *span,
            Expression::UnitIdentifier(span, _, _, _) => *span,
            Expression::UnaryOperator { op: _, expr, span_op } => span_op.extend(&expr.full_span()),
            Expression::BinaryOperator { op: _, lhs, rhs, span_op } => {
                let mut span = lhs.full_span().extend(&rhs.full_span());
                if let Some(span_op) = span_op {
                    span = span.extend(span_op);
                }
                span
            },
            Expression::FunctionCall(_, full_span, _, _) => *full_span,
            Expression::Boolean(span, _) => *span,
            Expression::StringLiteral(span, _) => *span,
            Expression::Condition(span_if, _, _, else_expr) => span_if.extend(
                &else_expr.full_span(),
            ),
            Expression::TypedHole(span) => *span,
            Expression::InstantiateStruct { full_span, .. } => *full_span,
            Expression::AccessField(full_span, _, _, _) => *full_span,
            Expression::List(full_span, _) => *full_span,
        }
    }
}

/// A statement of a numbat program. Only expression statements are
/// formatted; the others are given by their span.
pub enum Statement {
    Expression(Expression),
    DefineVariable(Span),
    DefineFunction(Span),
    DefineDimension(Span),
    DefineBaseUnit(Span),
    DefineDerivedUnit(Span),
    ProcedureCall(Span),
    ModuleImport(Span),
    DefineStruct(Span),
}

} // verus!
