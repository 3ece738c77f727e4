//! The type-bearing abstract syntax: types, dimension types, struct
//! metadata, and their mathematical models (the `Spec...` datatypes) used by
//! all contracts.

use vstd::prelude::*;

verus! {

/// An opaque, unique identifier for an as-yet-unresolved type slot.
/// Produced by type inference; never mutated; compared by equality only.
#[derive(Clone, Copy, Debug, PartialEq, Eq, Structural, Hash)]
pub struct TypeVariable(pub u64);

/// One factor of a dimension type: either a base physical dimension raised
/// to an integer power, or a type variable that stands for a dimension.
#[derive(Debug, PartialEq)]
pub enum DTypeFactor {
    BaseDimension(String, i32),
    TVar(TypeVariable),
}

/// A dimension type: a product of factors, mirroring a base representation
/// at the type level, possibly still containing type variables.
#[derive(Debug, PartialEq)]
pub struct DType {
    pub factors: Vec<DTypeFactor>,
}

/// A named aggregate type: an insertion-ordered mapping from field name to
/// field type. Every node that mentions a struct owns its metadata outright
/// (rather than sharing one aliased instance per declaration), so applying a
/// substitution visits each owned copy; a caller that keeps several copies
/// of one declaration must apply the substitution to each.
#[derive(Debug, PartialEq)]
pub struct StructInfo {
    pub name: String,
    pub fields: Vec<(String, Type)>,
}

/// The types of the language.
#[derive(Debug, PartialEq)]
pub enum Type {
    TVar(TypeVariable),
    Dimension(DType),
    Boolean,
    String,
    DateTime,
    Fn(Vec<Type>, Box<Type>),
    Struct(StructInfo),
    List(Box<Type>),
}

/// The expressions of the language. Every type-bearing node carries exactly
/// one type annotation; calls and field accesses carry one for their result
/// and own nested sub-expressions carrying their own.
#[derive(Debug, PartialEq)]
pub enum Expression {
    Scalar(i64, Type),
    Identifier(String, Type),
    UnitIdentifier(String, Type),
    UnaryOperator(Box<Expression>, Type),
    BinaryOperator(Box<Expression>, Box<Expression>, Type),
    BinaryOperatorForDate(Box<Expression>, Box<Expression>, Type),
    FunctionCall(String, Vec<Expression>, Type),
    CallableCall(Box<Expression>, Vec<Expression>, Type),
    Boolean(bool),
    Condition(Box<Expression>, Box<Expression>, Box<Expression>),
    String(String),
    InstantiateStruct(Vec<(String, Expression)>, StructInfo),
    AccessField(Box<Expression>, String, StructInfo, Type),
    List(Vec<Expression>, Type),
}

/// The top-level statements of the language.
#[derive(Debug, PartialEq)]
pub enum Statement {
    Expression(Expression),
    DefineVariable(String, Expression, Type),
    DefineFunction(String, Vec<(String, Type)>, Option<Expression>, Type),
    DefineDimension(String),
    DefineBaseUnit(String, Type),
    DefineDerivedUnit(String, Expression, Type),
    ProcedureCall(Vec<Expression>),
    DefineStruct(StructInfo),
}

/// Model of `DTypeFactor`: names become character sequences.
#[verifier::ext_equal]
pub enum SpecDTypeFactor {
    BaseDimension(Seq<char>, i32),
    TVar(TypeVariable),
}

/// Model of `DType`.
#[verifier::ext_equal]
pub struct SpecDType {
    pub factors: Seq<SpecDTypeFactor>,
}

/// Model of `StructInfo`.
#[verifier::ext_equal]
pub struct SpecStructInfo {
    pub name: Seq<char>,
    pub fields: Seq<(Seq<char>, SpecType)>,
}

/// Model of `Type`.
#[verifier::ext_equal]
pub enum SpecType {
    TVar(TypeVariable),
    Dimension(SpecDType),
    Boolean,
    String,
    DateTime,
    Fn(Seq<SpecType>, Box<SpecType>),
    Struct(SpecStructInfo),
    List(Box<SpecType>),
}

pub open spec fn dtype_factor_view(f: DTypeFactor) -> SpecDTypeFactor {
    match f {
        DTypeFactor::BaseDimension(name, exponent) => SpecDTypeFactor::BaseDimension(
            name@,
            exponent,
        ),
        DTypeFactor::TVar(v) => SpecDTypeFactor::TVar(v),
    }
}

/// Model of `Expression`.
#[verifier::ext_equal]
pub enum SpecExpression {
    Scalar(i64, SpecType),
    Identifier(Seq<char>, SpecType),
    UnitIdentifier(Seq<char>, SpecType),
    UnaryOperator(Box<SpecExpression>, SpecType),
    BinaryOperator(Box<SpecExpression>, Box<SpecExpression>, SpecType),
    BinaryOperatorForDate(Box<SpecExpression>, Box<SpecExpression>, SpecType),
    FunctionCall(Seq<char>, Seq<SpecExpression>, SpecType),
    CallableCall(Box<SpecExpression>, Seq<SpecExpression>, SpecType),
    Boolean(bool),
    Condition(Box<SpecExpression>, Box<SpecExpression>, Box<SpecExpression>),
    String(Seq<char>),
    InstantiateStruct(Seq<(Seq<char>, SpecExpression)>, SpecStructInfo),
    AccessField(Box<SpecExpression>, Seq<char>, SpecStructInfo, SpecType),
    List(Seq<SpecExpression>, SpecType),
}

/// Model of `Statement`.
#[verifier::ext_equal]
pub enum SpecStatement {
    Expression(SpecExpression),
    DefineVariable(Seq<char>, SpecExpression, SpecType),
    DefineFunction(Seq<char>, Seq<(Seq<char>, SpecType)>, Option<SpecExpression>, SpecType),
    DefineDimension(Seq<char>),
    DefineBaseUnit(Seq<char>, SpecType),
    DefineDerivedUnit(Seq<char>, SpecExpression, SpecType),
    ProcedureCall(Seq<SpecExpression>),
    DefineStruct(SpecStructInfo),
}

pub open spec fn dfactors_view(fs: Seq<DTypeFactor>) -> Seq<SpecDTypeFactor> {
    Seq::new(fs.len(), |i: int| dtype_factor_view(fs[i]))
}

pub open spec fn dtype_view(d: DType) -> SpecDType {
    SpecDType { factors: dfactors_view(d.factors@) }
}

pub open spec fn ty_view(t: Type) -> SpecType
    decreases t,
    via ty_view_decreases
{
    match t {
        Type::TVar(v) => SpecType::TVar(v),
        Type::Dimension(d) => SpecType::Dimension(dtype_view(d)),
        Type::Boolean => SpecType::Boolean,
        Type::String => SpecType::String,
        Type::DateTime => SpecType::DateTime,
        Type::Fn(params, ret) => SpecType::Fn(ty_view_seq(params@), Box::new(ty_view(*ret))),
        Type::Struct(info) => SpecType::Struct(struct_info_view(info)),
        Type::List(element) => SpecType::List(Box::new(ty_view(*element))),
    }
}

#[via_fn]
proof fn ty_view_decreases(t: Type) {
    match t {
        Type::Fn(params, ret) => {
            assert(decreases_to!(t => params));
            assert(decreases_to!(params => params@));
        },
        _ => {},
    }
}

pub open spec fn ty_view_seq(ts: Seq<Type>) -> Seq<SpecType>
    decreases ts,
{
    if ts.len() == 0 {
        Seq::empty()
    } else {
        seq![ty_view(ts[0])] + ty_view_seq(ts.drop_first())
    }
}

pub open spec fn field_view_seq(fs: Seq<(String, Type)>) -> Seq<(Seq<char>, SpecType)>
    decreases fs,
{
    if fs.len() == 0 {
        Seq::empty()
    } else {
        seq![(fs[0].0@, ty_view(fs[0].1))] + field_view_seq(fs.drop_first())
    }
}

pub open spec fn struct_info_view(info: StructInfo) -> SpecStructInfo
    decreases info,
    via struct_info_view_decreases
{
    SpecStructInfo { name: info.name@, fields: field_view_seq(info.fields@) }
}

#[via_fn]
proof fn struct_info_view_decreases(info: StructInfo) {
    assert(decreases_to!(info => info.fields));
    assert(decreases_to!(info.fields => info.fields@));
}

pub open spec fn expr_view(e: Expression) -> SpecExpression
    decreases e,
    via expr_view_decreases
{
    match e {
        Expression::Scalar(value, t) => SpecExpression::Scalar(value, ty_view(t)),
        Expression::Identifier(name, t) => SpecExpression::Identifier(name@, ty_view(t)),
        Expression::UnitIdentifier(name, t) => SpecExpression::UnitIdentifier(name@, ty_view(t)),
        Expression::UnaryOperator(operand, t) => SpecExpression::UnaryOperator(
            Box::new(expr_view(*operand)),
            ty_view(t),
        ),
        Expression::BinaryOperator(lhs, rhs, t) => SpecExpression::BinaryOperator(
            Box::new(expr_view(*lhs)),
            Box::new(expr_view(*rhs)),
            ty_view(t),
        ),
        Expression::BinaryOperatorForDate(lhs, rhs, t) => SpecExpression::BinaryOperatorForDate(
            Box::new(expr_view(*lhs)),
            Box::new(expr_view(*rhs)),
            ty_view(t),
        ),
        Expression::FunctionCall(name, args, t) => SpecExpression::FunctionCall(
            name@,
            expr_view_seq(args@),
            ty_view(t),
        ),
        Expression::CallableCall(callable, args, t) => SpecExpression::CallableCall(
            Box::new(expr_view(*callable)),
            expr_view_seq(args@),
            ty_view(t),
        ),
        Expression::Boolean(value) => SpecExpression::Boolean(value),
        Expression::Condition(cond, then_branch, else_branch) => SpecExpression::Condition(
            Box::new(expr_view(*cond)),
            Box::new(expr_view(*then_branch)),
            Box::new(expr_view(*else_branch)),
        ),
        Expression::String(value) => SpecExpression::String(value@),
        Expression::InstantiateStruct(initializers, info) => SpecExpression::InstantiateStruct(
            init_view_seq(initializers@),
            struct_info_view(info),
        ),
        Expression::AccessField(instance, field, info, t) => SpecExpression::AccessField(
            Box::new(expr_view(*instance)),
            field@,
            struct_info_view(info),
            ty_view(t),
        ),
        Expression::List(elements, t) => SpecExpression::List(expr_view_seq(elements@), ty_view(t)),
    }
}

#[via_fn]
proof fn expr_view_decreases(e: Expression) {
    match e {
        Expression::FunctionCall(name, args, t) => {
            assert(decreases_to!(e => args));
            assert(decreases_to!(args => args@));
        },
        Expression::CallableCall(callable, args, t) => {
            assert(decreases_to!(e => args));
            assert(decreases_to!(args => args@));
        },
        Expression::InstantiateStruct(initializers, info) => {
            assert(decreases_to!(e => initializers));
            assert(decreases_to!(initializers => initializers@));
        },
        Expression::List(elements, t) => {
            assert(decreases_to!(e => elements));
            assert(decreases_to!(elements => elements@));
        },
        _ => {},
    }
}

pub open spec fn expr_view_seq(es: Seq<Expression>) -> Seq<SpecExpression>
    decreases es,
{
    if es.len() == 0 {
        Seq::empty()
    } else {
        seq![expr_view(es[0])] + expr_view_seq(es.drop_first())
    }
}

pub open spec fn init_view_seq(inits: Seq<(String, Expression)>) -> Seq<
    (Seq<char>, SpecExpression),
>
    decreases inits,
{
    if inits.len() == 0 {
        Seq::empty()
    } else {
        seq![(inits[0].0@, expr_view(inits[0].1))] + init_view_seq(inits.drop_first())
    }
}

pub open spec fn stmt_view(st: Statement) -> SpecStatement {
    match st {
        Statement::Expression(e) => SpecStatement::Expression(expr_view(e)),
        Statement::DefineVariable(name, e, t) => SpecStatement::DefineVariable(
            name@,
            expr_view(e),
            ty_view(t),
        ),
        Statement::DefineFunction(name, parameters, body, return_type) => {
            SpecStatement::DefineFunction(
                name@,
                field_view_seq(parameters@),
                (match body {
                    Option::Some(b) => Option::Some(expr_view(b)),
                    Option::None => Option::None,
                }),
                ty_view(return_type),
            )
        },
        Statement::DefineDimension(name) => SpecStatement::DefineDimension(name@),
        Statement::DefineBaseUnit(name, t) => SpecStatement::DefineBaseUnit(name@, ty_view(t)),
        Statement::DefineDerivedUnit(name, e, t) => SpecStatement::DefineDerivedUnit(
            name@,
            expr_view(e),
            ty_view(t),
        ),
        Statement::ProcedureCall(args) => SpecStatement::ProcedureCall(expr_view_seq(args@)),
        Statement::DefineStruct(info) => SpecStatement::DefineStruct(struct_info_view(info)),
    }
}

/// The expression view-sequence is pointwise `expr_view`.
pub proof fn lemma_expr_view_seq(es: Seq<Expression>)
    ensures
        expr_view_seq(es).len() == es.len(),
        forall|i: int| 0 <= i < es.len() ==> expr_view_seq(es)[i] == expr_view(es[i]),
    decreases es.len(),
{
    if es.len() > 0 {
        lemma_expr_view_seq(es.drop_first());
    }
}

/// The initializer view-sequence is pointwise: names viewed, values viewed.
pub proof fn lemma_init_view_seq(inits: Seq<(String, Expression)>)
    ensures
        init_view_seq(inits).len() == inits.len(),
        forall|i: int|
            0 <= i < inits.len() ==> init_view_seq(inits)[i] == (
                inits[i].0@,
                expr_view(inits[i].1),
            ),
    decreases inits.len(),
{
    if inits.len() > 0 {
        lemma_init_view_seq(inits.drop_first());
    }
}

impl View for Expression {
    type V = SpecExpression;

    open spec fn view(&self) -> SpecExpression {
        expr_view(*self)
    }
}

impl View for Statement {
    type V = SpecStatement;

    open spec fn view(&self) -> SpecStatement {
        stmt_view(*self)
    }
}

/// The sequence view of a view-sequence is pointwise `ty_view`.
pub proof fn lemma_ty_view_seq(ts: Seq<Type>)
    ensures
        ty_view_seq(ts).len() == ts.len(),
        forall|i: int| 0 <= i < ts.len() ==> ty_view_seq(ts)[i] == ty_view(ts[i]),
    decreases ts.len(),
{
    if ts.len() > 0 {
        lemma_ty_view_seq(ts.drop_first());
    }
}

/// The field view-sequence is pointwise: names viewed, types viewed.
pub proof fn lemma_field_view_seq(fs: Seq<(String, Type)>)
    ensures
        field_view_seq(fs).len() == fs.len(),
        forall|i: int|
            0 <= i < fs.len() ==> field_view_seq(fs)[i] == (fs[i].0@, ty_view(fs[i].1)),
    decreases fs.len(),
{
    if fs.len() > 0 {
        lemma_field_view_seq(fs.drop_first());
    }
}

impl View for DTypeFactor {
    type V = SpecDTypeFactor;

    open spec fn view(&self) -> SpecDTypeFactor {
        dtype_factor_view(*self)
    }
}

impl View for DType {
    type V = SpecDType;

    open spec fn view(&self) -> SpecDType {
        dtype_view(*self)
    }
}

impl View for StructInfo {
    type V = SpecStructInfo;

    open spec fn view(&self) -> SpecStructInfo {
        struct_info_view(*self)
    }
}

impl View for Type {
    type V = SpecType;

    open spec fn view(&self) -> SpecType {
        ty_view(*self)
    }
}

impl Clone for DTypeFactor {
    /// A clone is indistinguishable from the original in every contract.
    fn clone(&self) -> (res: DTypeFactor)
        ensures
            res@ == self@,
    {
        match self {
            DTypeFactor::BaseDimension(name, exponent) => DTypeFactor::BaseDimension(
                name.clone(),
                *exponent,
            ),
            DTypeFactor::TVar(v) => DTypeFactor::TVar(*v),
        }
    }
}

impl Clone for DType {
    /// A clone is indistinguishable from the original in every contract.
    fn clone(&self) -> (res: DType)
        ensures
            res@ == self@,
    {
        let mut factors: Vec<DTypeFactor> = Vec::new();
        let mut i: usize = 0;
        while i < self.factors.len()
            invariant
                0 <= i <= self.factors.len(),
                factors@.len() == i,
                forall|j: int| 0 <= j < i ==> factors@[j]@ == self.factors@[j]@,
            decreases self.factors.len() - i,
        {
            factors.push(self.factors[i].clone());
            i += 1;
        }
        let res = DType { factors };
        proof {
            assert(res@.factors =~= self@.factors);
        }
        res
    }
}

impl Clone for Type {
    /// A clone is indistinguishable from the original in every contract.
    fn clone(&self) -> (res: Type)
        ensures
            res@ == self@,
        decreases *self,
    {
        match self {
            Type::TVar(v) => Type::TVar(*v),
            Type::Dimension(d) => Type::Dimension(d.clone()),
            Type::Boolean => Type::Boolean,
            Type::String => Type::String,
            Type::DateTime => Type::DateTime,
            Type::Fn(params, ret) => {
                let mut new_params: Vec<Type> = Vec::new();
                let mut i: usize = 0;
                while i < params.len()
                    invariant
                        *self is Fn,
                        self->Fn_0 == *params,
                        0 <= i <= params.len(),
                        new_params@.len() == i,
                        forall|j: int| 0 <= j < i ==> new_params@[j]@ == params@[j]@,
                    decreases params.len() - i,
                {
                    proof {
                        assert(decreases_to!(*self => self->Fn_0));
                        assert(decreases_to!(self->Fn_0 => self->Fn_0@[i as int]));
                    }
                    new_params.push(params[i].clone());
                    i += 1;
                }
                let new_ret = Box::new((**ret).clone());
                let res = Type::Fn(new_params, new_ret);
                proof {
                    lemma_ty_view_seq(new_params@);
                    lemma_ty_view_seq(params@);
                    assert(ty_view_seq(new_params@) =~= ty_view_seq(params@));
                }
                res
            },
            Type::Struct(info) => Type::Struct(info.clone()),
            Type::List(element) => Type::List(Box::new((**element).clone())),
        }
    }
}

impl Clone for StructInfo {
    /// A clone is indistinguishable from the original in every contract.
    fn clone(&self) -> (res: StructInfo)
        ensures
            res@ == self@,
        decreases *self,
    {
        let mut fields: Vec<(String, Type)> = Vec::new();
        let mut i: usize = 0;
        while i < self.fields.len()
            invariant
                0 <= i <= self.fields.len(),
                fields@.len() == i,
                forall|j: int|
                    0 <= j < i ==> fields@[j].0@ == self.fields@[j].0@ && fields@[j].1@
                        == self.fields@[j].1@,
            decreases self.fields.len() - i,
        {
            proof {
                assert(decreases_to!(*self => self.fields));
                assert(decreases_to!(self.fields => self.fields@[i as int]));
            }
            let field_name = self.fields[i].0.clone();
            let field_type = self.fields[i].1.clone();
            fields.push((field_name, field_type));
            i += 1;
        }
        let res = StructInfo { name: self.name.clone(), fields };
        proof {
            lemma_field_view_seq(fields@);
            lemma_field_view_seq(self.fields@);
            assert(field_view_seq(fields@) =~= field_view_seq(self.fields@));
        }
        res
    }
}

} // verus!
