//! Substitutions: ordered mappings from type variables to types, their
//! composition, and the capability of applying one to every type slot of an
//! AST node.
//!
//! Application is all-or-nothing: when it fails, the node is left unchanged.

use vstd::prelude::*;

use crate::typed_ast::{
    dfactors_view, dtype_factor_view, expr_view, expr_view_seq, field_view_seq, init_view_seq,
    lemma_expr_view_seq, lemma_field_view_seq, lemma_init_view_seq, lemma_ty_view_seq, ty_view,
    ty_view_seq, DType, DTypeFactor, Expression, SpecDType, SpecDTypeFactor, SpecExpression,
    SpecStatement, SpecStructInfo, SpecType, Statement, StructInfo, Type, TypeVariable,
};

verus! {

/// An ordered sequence of bindings from type variables to types. The first
/// binding found for a variable is authoritative.
#[derive(Debug, Clone)]
pub struct Substitution(pub Vec<(TypeVariable, Type)>);

impl View for Substitution {
    type V = Seq<(TypeVariable, SpecType)>;

    open spec fn view(&self) -> Seq<(TypeVariable, SpecType)> {
        Seq::new(self.0@.len(), |i: int| (self.0@[i].0, self.0@[i].1@))
    }
}

/// The error of applying a substitution: a type variable that occurs inside
/// a dimension type was resolved to a type that is not a dimension type.
/// This signals an internal-consistency violation of the type system, not an
/// ordinary type mismatch.
#[derive(Debug, PartialEq)]
pub enum SubstitutionError {
    SubstitutedNonDTypeWithinDType(Type),
}

/// Model of `SubstitutionError`: the offending type.
pub open spec fn err_view(e: SubstitutionError) -> SpecType {
    match e {
        SubstitutionError::SubstitutedNonDTypeWithinDType(t) => t@,
    }
}

impl Clone for SubstitutionError {
    /// A clone is indistinguishable from the original in every contract.
    fn clone(&self) -> (res: SubstitutionError)
        ensures
            err_view(res) == err_view(*self),
    {
        match self {
            SubstitutionError::SubstitutedNonDTypeWithinDType(t) => {
                SubstitutionError::SubstitutedNonDTypeWithinDType(t.clone())
            },
        }
    }
}

/// The binding for `v` in `s`, if any: the first matching pair decides.
pub open spec fn spec_lookup(s: Seq<(TypeVariable, SpecType)>, v: TypeVariable) -> Option<SpecType>
    decreases s.len(),
{
    if s.len() == 0 {
        Option::None
    } else if s[0].0 == v {
        Option::Some(s[0].1)
    } else {
        spec_lookup(s.drop_first(), v)
    }
}

/// What applying `s` to one dimension-type factor yields: a run of factors
/// to be spliced in place of the original factor, or the offending type.
pub open spec fn apply_dtype_factor(
    s: Seq<(TypeVariable, SpecType)>,
    f: SpecDTypeFactor,
) -> Result<Seq<SpecDTypeFactor>, SpecType> {
    match f {
        SpecDTypeFactor::BaseDimension(name, exponent) => Result::Ok(
            seq![SpecDTypeFactor::BaseDimension(name, exponent)],
        ),
        SpecDTypeFactor::TVar(v) => match spec_lookup(s, v) {
            Option::None => Result::Ok(seq![SpecDTypeFactor::TVar(v)]),
            Option::Some(u) => match u {
                SpecType::TVar(w) => Result::Ok(seq![SpecDTypeFactor::TVar(w)]),
                SpecType::Dimension(d) => Result::Ok(d.factors),
                _ => Result::Err(u),
            },
        },
    }
}

/// Applying `s` to a run of factors: each factor is replaced by its splice,
/// in order; the first failure aborts the whole application.
pub open spec fn apply_dtype_factor_seq(
    s: Seq<(TypeVariable, SpecType)>,
    fs: Seq<SpecDTypeFactor>,
) -> Result<Seq<SpecDTypeFactor>, SpecType>
    decreases fs.len(),
{
    if fs.len() == 0 {
        Result::Ok(Seq::empty())
    } else {
        match apply_dtype_factor(s, fs[0]) {
            Result::Err(e) => Result::Err(e),
            Result::Ok(head) => match apply_dtype_factor_seq(s, fs.drop_first()) {
                Result::Err(e) => Result::Err(e),
                Result::Ok(rest) => Result::Ok(head + rest),
            },
        }
    }
}

/// Applying `s` to a dimension type.
pub open spec fn apply_dtype(
    s: Seq<(TypeVariable, SpecType)>,
    d: SpecDType,
) -> Result<SpecDType, SpecType> {
    match apply_dtype_factor_seq(s, d.factors) {
        Result::Err(e) => Result::Err(e),
        Result::Ok(fs) => Result::Ok(SpecDType { factors: fs }),
    }
}

/// Applying `s` to a type: a bare type-variable reference is replaced by its
/// binding if present; composite types recurse into every owned sub-type.
pub open spec fn apply_ty(
    s: Seq<(TypeVariable, SpecType)>,
    t: SpecType,
) -> Result<SpecType, SpecType>
    decreases t,
{
    match t {
        SpecType::TVar(v) => match spec_lookup(s, v) {
            Option::Some(u) => Result::Ok(u),
            Option::None => Result::Ok(SpecType::TVar(v)),
        },
        SpecType::Dimension(d) => match apply_dtype(s, d) {
            Result::Err(e) => Result::Err(e),
            Result::Ok(d2) => Result::Ok(SpecType::Dimension(d2)),
        },
        SpecType::Boolean => Result::Ok(SpecType::Boolean),
        SpecType::String => Result::Ok(SpecType::String),
        SpecType::DateTime => Result::Ok(SpecType::DateTime),
        SpecType::Fn(params, ret) => match apply_ty_seq(s, params) {
            Result::Err(e) => Result::Err(e),
            Result::Ok(ps) => match apply_ty(s, *ret) {
                Result::Err(e) => Result::Err(e),
                Result::Ok(r) => Result::Ok(SpecType::Fn(ps, Box::new(r))),
            },
        },
        SpecType::Struct(info) => match apply_struct_info(s, info) {
            Result::Err(e) => Result::Err(e),
            Result::Ok(info2) => Result::Ok(SpecType::Struct(info2)),
        },
        SpecType::List(element) => match apply_ty(s, *element) {
            Result::Err(e) => Result::Err(e),
            Result::Ok(r) => Result::Ok(SpecType::List(Box::new(r))),
        },
    }
}

/// Applying `s` to each type of a sequence, aborting at the first failure.
pub open spec fn apply_ty_seq(
    s: Seq<(TypeVariable, SpecType)>,
    ts: Seq<SpecType>,
) -> Result<Seq<SpecType>, SpecType>
    decreases ts,
{
    if ts.len() == 0 {
        Result::Ok(Seq::empty())
    } else {
        match apply_ty(s, ts[0]) {
            Result::Err(e) => Result::Err(e),
            Result::Ok(r) => match apply_ty_seq(s, ts.drop_first()) {
                Result::Err(e) => Result::Err(e),
                Result::Ok(rs) => Result::Ok(seq![r] + rs),
            },
        }
    }
}

/// Applying `s` to each field type, keeping names and order.
pub open spec fn apply_field_seq(
    s: Seq<(TypeVariable, SpecType)>,
    fs: Seq<(Seq<char>, SpecType)>,
) -> Result<Seq<(Seq<char>, SpecType)>, SpecType>
    decreases fs,
{
    if fs.len() == 0 {
        Result::Ok(Seq::empty())
    } else {
        match apply_ty(s, fs[0].1) {
            Result::Err(e) => Result::Err(e),
            Result::Ok(r) => match apply_field_seq(s, fs.drop_first()) {
                Result::Err(e) => Result::Err(e),
                Result::Ok(rs) => Result::Ok(seq![(fs[0].0, r)] + rs),
            },
        }
    }
}

/// Applying `s` to struct metadata: every field type, in order.
pub open spec fn apply_struct_info(
    s: Seq<(TypeVariable, SpecType)>,
    info: SpecStructInfo,
) -> Result<SpecStructInfo, SpecType>
    decreases info,
{
    match apply_field_seq(s, info.fields) {
        Result::Err(e) => Result::Err(e),
        Result::Ok(fs) => Result::Ok(SpecStructInfo { name: info.name, fields: fs }),
    }
}

/// Applying `s` to an expression: every owned sub-expression first, then the
/// node's own type annotations; the first failure aborts everything.
pub open spec fn apply_expr(
    s: Seq<(TypeVariable, SpecType)>,
    e: SpecExpression,
) -> Result<SpecExpression, SpecType>
    decreases e,
{
    match e {
        SpecExpression::Scalar(value, t) => match apply_ty(s, t) {
            Result::Err(err) => Result::Err(err),
            Result::Ok(t2) => Result::Ok(SpecExpression::Scalar(value, t2)),
        },
        SpecExpression::Identifier(name, t) => match apply_ty(s, t) {
            Result::Err(err) => Result::Err(err),
            Result::Ok(t2) => Result::Ok(SpecExpression::Identifier(name, t2)),
        },
        SpecExpression::UnitIdentifier(name, t) => match apply_ty(s, t) {
            Result::Err(err) => Result::Err(err),
            Result::Ok(t2) => Result::Ok(SpecExpression::UnitIdentifier(name, t2)),
        },
        SpecExpression::UnaryOperator(operand, t) => match apply_expr(s, *operand) {
            Result::Err(err) => Result::Err(err),
            Result::Ok(o2) => match apply_ty(s, t) {
                Result::Err(err) => Result::Err(err),
                Result::Ok(t2) => Result::Ok(SpecExpression::UnaryOperator(Box::new(o2), t2)),
            },
        },
        SpecExpression::BinaryOperator(lhs, rhs, t) => match apply_expr(s, *lhs) {
            Result::Err(err) => Result::Err(err),
            Result::Ok(l2) => match apply_expr(s, *rhs) {
                Result::Err(err) => Result::Err(err),
                Result::Ok(r2) => match apply_ty(s, t) {
                    Result::Err(err) => Result::Err(err),
                    Result::Ok(t2) => Result::Ok(
                        SpecExpression::BinaryOperator(Box::new(l2), Box::new(r2), t2),
                    ),
                },
            },
        },
        SpecExpression::BinaryOperatorForDate(lhs, rhs, t) => match apply_expr(s, *lhs) {
            Result::Err(err) => Result::Err(err),
            Result::Ok(l2) => match apply_expr(s, *rhs) {
                Result::Err(err) => Result::Err(err),
                Result::Ok(r2) => match apply_ty(s, t) {
                    Result::Err(err) => Result::Err(err),
                    Result::Ok(t2) => Result::Ok(
                        SpecExpression::BinaryOperatorForDate(Box::new(l2), Box::new(r2), t2),
                    ),
                },
            },
        },
        SpecExpression::FunctionCall(name, args, t) => match apply_expr_seq(s, args) {
            Result::Err(err) => Result::Err(err),
            Result::Ok(args2) => match apply_ty(s, t) {
                Result::Err(err) => Result::Err(err),
                Result::Ok(t2) => Result::Ok(SpecExpression::FunctionCall(name, args2, t2)),
            },
        },
        SpecExpression::CallableCall(callable, args, t) => match apply_expr(s, *callable) {
            Result::Err(err) => Result::Err(err),
            Result::Ok(c2) => match apply_expr_seq(s, args) {
                Result::Err(err) => Result::Err(err),
                Result::Ok(args2) => match apply_ty(s, t) {
                    Result::Err(err) => Result::Err(err),
                    Result::Ok(t2) => Result::Ok(
                        SpecExpression::CallableCall(Box::new(c2), args2, t2),
                    ),
                },
            },
        },
        SpecExpression::Boolean(value) => Result::Ok(SpecExpression::Boolean(value)),
        SpecExpression::Condition(cond, then_branch, else_branch) => match apply_expr(s, *cond) {
            Result::Err(err) => Result::Err(err),
            Result::Ok(c2) => match apply_expr(s, *then_branch) {
                Result::Err(err) => Result::Err(err),
                Result::Ok(th2) => match apply_expr(s, *else_branch) {
                    Result::Err(err) => Result::Err(err),
                    Result::Ok(el2) => Result::Ok(
                        SpecExpression::Condition(Box::new(c2), Box::new(th2), Box::new(el2)),
                    ),
                },
            },
        },
        SpecExpression::String(value) => Result::Ok(SpecExpression::String(value)),
        SpecExpression::InstantiateStruct(initializers, info) => match apply_init_seq(
            s,
            initializers,
        ) {
            Result::Err(err) => Result::Err(err),
            Result::Ok(inits2) => match apply_struct_info(s, info) {
                Result::Err(err) => Result::Err(err),
                Result::Ok(info2) => Result::Ok(
                    SpecExpression::InstantiateStruct(inits2, info2),
                ),
            },
        },
        SpecExpression::AccessField(instance, field, info, t) => match apply_expr(s, *instance) {
            Result::Err(err) => Result::Err(err),
            Result::Ok(i2) => match apply_struct_info(s, info) {
                Result::Err(err) => Result::Err(err),
                Result::Ok(info2) => match apply_ty(s, t) {
                    Result::Err(err) => Result::Err(err),
                    Result::Ok(t2) => Result::Ok(
                        SpecExpression::AccessField(Box::new(i2), field, info2, t2),
                    ),
                },
            },
        },
        SpecExpression::List(elements, t) => match apply_expr_seq(s, elements) {
            Result::Err(err) => Result::Err(err),
            Result::Ok(es2) => match apply_ty(s, t) {
                Result::Err(err) => Result::Err(err),
                Result::Ok(t2) => Result::Ok(SpecExpression::List(es2, t2)),
            },
        },
    }
}

/// Applying `s` to each expression of a sequence, aborting at the first
/// failure.
pub open spec fn apply_expr_seq(
    s: Seq<(TypeVariable, SpecType)>,
    es: Seq<SpecExpression>,
) -> Result<Seq<SpecExpression>, SpecType>
    decreases es,
{
    if es.len() == 0 {
        Result::Ok(Seq::empty())
    } else {
        match apply_expr(s, es[0]) {
            Result::Err(err) => Result::Err(err),
            Result::Ok(r) => match apply_expr_seq(s, es.drop_first()) {
                Result::Err(err) => Result::Err(err),
                Result::Ok(rs) => Result::Ok(seq![r] + rs),
            },
        }
    }
}

/// Applying `s` to each initializer value, keeping names and order.
pub open spec fn apply_init_seq(
    s: Seq<(TypeVariable, SpecType)>,
    inits: Seq<(Seq<char>, SpecExpression)>,
) -> Result<Seq<(Seq<char>, SpecExpression)>, SpecType>
    decreases inits,
{
    if inits.len() == 0 {
        Result::Ok(Seq::empty())
    } else {
        match apply_expr(s, inits[0].1) {
            Result::Err(err) => Result::Err(err),
            Result::Ok(r) => match apply_init_seq(s, inits.drop_first()) {
                Result::Err(err) => Result::Err(err),
                Result::Ok(rs) => Result::Ok(seq![(inits[0].0, r)] + rs),
            },
        }
    }
}

/// Applying `s` to a statement: every owned sub-expression first, then the
/// statement's own type annotations.
pub open spec fn apply_stmt(
    s: Seq<(TypeVariable, SpecType)>,
    st: SpecStatement,
) -> Result<SpecStatement, SpecType> {
    match st {
        SpecStatement::Expression(e) => match apply_expr(s, e) {
            Result::Err(err) => Result::Err(err),
            Result::Ok(e2) => Result::Ok(SpecStatement::Expression(e2)),
        },
        SpecStatement::DefineVariable(name, e, t) => match apply_expr(s, e) {
            Result::Err(err) => Result::Err(err),
            Result::Ok(e2) => match apply_ty(s, t) {
                Result::Err(err) => Result::Err(err),
                Result::Ok(t2) => Result::Ok(SpecStatement::DefineVariable(name, e2, t2)),
            },
        },
        SpecStatement::DefineFunction(name, parameters, body, return_type) => match apply_field_seq(
            s,
            parameters,
        ) {
            Result::Err(err) => Result::Err(err),
            Result::Ok(params2) => match body {
                Option::Some(b) => match apply_expr(s, b) {
                    Result::Err(err) => Result::Err(err),
                    Result::Ok(b2) => match apply_ty(s, return_type) {
                        Result::Err(err) => Result::Err(err),
                        Result::Ok(t2) => Result::Ok(
                            SpecStatement::DefineFunction(
                                name,
                                params2,
                                Option::Some(b2),
                                t2,
                            ),
                        ),
                    },
                },
                Option::None => match apply_ty(s, return_type) {
                    Result::Err(err) => Result::Err(err),
                    Result::Ok(t2) => Result::Ok(
                        SpecStatement::DefineFunction(name, params2, Option::None, t2),
                    ),
                },
            },
        },
        SpecStatement::DefineDimension(name) => Result::Ok(SpecStatement::DefineDimension(name)),
        SpecStatement::DefineBaseUnit(name, t) => match apply_ty(s, t) {
            Result::Err(err) => Result::Err(err),
            Result::Ok(t2) => Result::Ok(SpecStatement::DefineBaseUnit(name, t2)),
        },
        SpecStatement::DefineDerivedUnit(name, e, t) => match apply_expr(s, e) {
            Result::Err(err) => Result::Err(err),
            Result::Ok(e2) => match apply_ty(s, t) {
                Result::Err(err) => Result::Err(err),
                Result::Ok(t2) => Result::Ok(SpecStatement::DefineDerivedUnit(name, e2, t2)),
            },
        },
        SpecStatement::ProcedureCall(args) => match apply_expr_seq(s, args) {
            Result::Err(err) => Result::Err(err),
            Result::Ok(args2) => Result::Ok(SpecStatement::ProcedureCall(args2)),
        },
        SpecStatement::DefineStruct(info) => match apply_struct_info(s, info) {
            Result::Err(err) => Result::Err(err),
            Result::Ok(info2) => Result::Ok(SpecStatement::DefineStruct(info2)),
        },
    }
}

/// Relates an executable application result to its model.
pub open spec fn ty_result_matches(
    r: Result<Type, SubstitutionError>,
    m: Result<SpecType, SpecType>,
) -> bool {
    match (r, m) {
        (Result::Ok(t), Result::Ok(u)) => t@ == u,
        (Result::Err(e), Result::Err(u)) => err_view(e) == u,
        _ => false,
    }
}

impl Substitution {
    /// The identity substitution: no bindings.
    pub fn empty() -> (r: Substitution)
        ensures
            r@ == Seq::<(TypeVariable, SpecType)>::empty(),
    {
        let r = Substitution(Vec::new());
        proof {
            assert(r@ =~= Seq::<(TypeVariable, SpecType)>::empty());
        }
        r
    }

    /// The substitution binding exactly `v` to `t`.
    pub fn single(v: TypeVariable, t: Type) -> (r: Substitution)
        ensures
            r@ == seq![(v, t@)],
    {
        let mut bindings: Vec<(TypeVariable, Type)> = Vec::new();
        bindings.push((v, t));
        let r = Substitution(bindings);
        proof {
            assert(r@ =~= seq![(v, t@)]);
        }
        r
    }

    /// The bound type for `v` if present, else `None` ("unbound").
    pub fn lookup(&self, v: &TypeVariable) -> (r: Option<&Type>)
        ensures
            (match r {
                Option::Some(t) => spec_lookup(self@, *v) == Option::Some(t@),
                Option::None => spec_lookup(self@, *v) is None,
            }),
    {
        let mut i: usize = 0;
        proof {
            assert(self@.skip(0) =~= self@);
        }
        while i < self.0.len()
            invariant
                0 <= i <= self.0.len(),
                spec_lookup(self@, *v) == spec_lookup(self@.skip(i as int), *v),
            decreases self.0.len() - i,
        {
            proof {
                assert(self@.skip(i as int)[0] == self@[i as int]);
                assert(self@.skip(i as int).drop_first() =~= self@.skip(i as int + 1));
            }
            if self.0[i].0 == *v {
                return Option::Some(&self.0[i].1);
            }
            i += 1;
        }
        proof {
            assert(self@.skip(i as int).len() == 0);
        }
        Option::None
    }

    /// Composes `self` with `other`, so that applying the result behaves as
    /// "apply `self`, then apply `other`": `other` is first applied to every
    /// type already bound in `self`, then `other`'s own bindings are
    /// appended.
    ///
    /// The caller must ensure that `other` applies cleanly to every bound
    /// type (a substitution produced by sound inference does); a failure
    /// there would be an internal-invariant violation.
    pub fn extend(&mut self, other: Substitution)
        requires
            forall|i: int|
                0 <= i < old(self)@.len() ==> apply_ty(other@, old(self)@[i].1) is Ok,
        ensures
            final(self)@.len() == old(self)@.len() + other@.len(),
            forall|i: int|
                0 <= i < old(self)@.len() ==> final(self)@[i].0 == old(self)@[i].0 && Result::<
                    SpecType,
                    SpecType,
                >::Ok(final(self)@[i].1) == apply_ty(other@, old(self)@[i].1),
            forall|i: int|
                old(self)@.len() <= i < final(self)@.len() ==> final(self)@[i] == other@[i - old(
                    self,
                )@.len()],
            final(self)@ == compose_subst(old(self)@, other@),
    {
        let ghost other_view = other@;
        let mut composed: Vec<(TypeVariable, Type)> = Vec::new();
        let mut i: usize = 0;
        while i < self.0.len()
            invariant
                0 <= i <= self.0.len(),
                composed@.len() == i,
                forall|j: int|
                    0 <= j < old(self)@.len() ==> apply_ty(other@, old(self)@[j].1) is Ok,
                *self == *old(self),
                forall|j: int|
                    0 <= j < i ==> composed@[j].0 == old(self)@[j].0 && Result::<
                        SpecType,
                        SpecType,
                    >::Ok(composed@[j].1@) == apply_ty(other@, old(self)@[j].1),
            decreases self.0.len() - i,
        {
            let var = self.0[i].0;
            let applied = match subst_type(&self.0[i].1, &other) {
                Result::Ok(t) => t,
                Result::Err(_) => {
                    proof {
                        assert(old(self)@[i as int].1 == self.0@[i as int].1@);
                        assert(false);
                    }
                    vstd::pervasive::unreached()
                },
            };
            composed.push((var, applied));
            i += 1;
        }
        let mut rest = other;
        self.0 = composed;
        self.0.append(&mut rest.0);
        proof {
            assert(self@ =~= compose_subst(old(self)@, other_view));
        }
    }
}

/// Applies `substitution` to `t`, returning the resolved type, or the
/// offending non-dimension type if a variable inside a dimension type was
/// bound to one.
pub fn subst_type(t: &Type, substitution: &Substitution) -> (r: Result<Type, SubstitutionError>)
    ensures
        ty_result_matches(r, apply_ty(substitution@, t@)),
    decreases *t,
{
    match t {
        Type::TVar(v) => match substitution.lookup(v) {
            Option::Some(bound) => Result::Ok(bound.clone()),
            Option::None => Result::Ok(Type::TVar(*v)),
        },
        Type::Dimension(d) => match subst_dtype(d, substitution) {
            Result::Ok(d2) => Result::Ok(Type::Dimension(d2)),
            Result::Err(e) => Result::Err(e),
        },
        Type::Boolean => Result::Ok(Type::Boolean),
        Type::String => Result::Ok(Type::String),
        Type::DateTime => Result::Ok(Type::DateTime),
        Type::Fn(params, ret) => {
            let mut new_params: Vec<Type> = Vec::new();
            let mut i: usize = 0;
            proof {
                lemma_ty_view_seq(params@);
                assert(ty_view_seq(params@).take(0) =~= Seq::<SpecType>::empty());
                assert(ty_view_seq(new_params@) =~= Seq::<SpecType>::empty());
            }
            while i < params.len()
                invariant
                    *t is Fn,
                    t->Fn_0 == *params,
                    0 <= i <= params.len(),
                    ty_view_seq(params@).len() == params@.len(),
                    apply_ty_seq(substitution@, ty_view_seq(params@).take(i as int))
                        == Result::<Seq<SpecType>, SpecType>::Ok(ty_view_seq(new_params@)),
                decreases params.len() - i,
            {
                proof {
                    assert(decreases_to!(*t => t->Fn_0));
                    assert(decreases_to!(t->Fn_0 => t->Fn_0@[i as int]));
                    lemma_ty_view_seq(params@);
                }
                let ghost prev = new_params@;
                match subst_type(&params[i], substitution) {
                    Result::Ok(t2) => {
                        proof {
                            lemma_apply_ty_seq_snoc(
                                substitution@,
                                ty_view_seq(params@).take(i as int),
                                ty_view(params@[i as int]),
                            );
                            assert(ty_view_seq(params@).take(i as int).push(
                                ty_view(params@[i as int]),
                            ) =~= ty_view_seq(params@).take(i as int + 1));
                        }
                        let ghost applied_view = t2@;
                        new_params.push(t2);
                        proof {
                            lemma_ty_view_seq(prev);
                            lemma_ty_view_seq(new_params@);
                            assert(ty_view_seq(new_params@) =~= ty_view_seq(prev).push(
                                applied_view,
                            ));
                        }
                    },
                    Result::Err(e) => {
                        proof {
                            lemma_apply_ty_seq_first_err(
                                substitution@,
                                ty_view_seq(params@),
                                i as int,
                                err_view(e),
                            );
                        }
                        return Result::Err(e);
                    },
                }
                i += 1;
            }
            proof {
                lemma_ty_view_seq(params@);
                assert(ty_view_seq(params@).take(params@.len() as int) =~= ty_view_seq(params@));
            }
            match subst_type(ret, substitution) {
                Result::Ok(r2) => Result::Ok(Type::Fn(new_params, Box::new(r2))),
                Result::Err(e) => Result::Err(e),
            }
        },
        Type::Struct(info) => match subst_struct_info(info, substitution) {
            Result::Ok(info2) => Result::Ok(Type::Struct(info2)),
            Result::Err(e) => Result::Err(e),
        },
        Type::List(element) => match subst_type(element, substitution) {
            Result::Ok(r2) => Result::Ok(Type::List(Box::new(r2))),
            Result::Err(e) => Result::Err(e),
        },
    }
}

/// Applies `substitution` to a dimension type. Every type variable among the
/// factors must stay within the dimension sub-language: one bound to a
/// non-dimension type is reported as an error.
pub fn subst_dtype(d: &DType, substitution: &Substitution) -> (r: Result<
    DType,
    SubstitutionError,
>)
    ensures
        (match (r, apply_dtype(substitution@, d@)) {
            (Result::Ok(d2), Result::Ok(u)) => d2@ == u,
            (Result::Err(e), Result::Err(u)) => err_view(e) == u,
            _ => false,
        }),
{
    let mut new_factors: Vec<DTypeFactor> = Vec::new();
    let mut i: usize = 0;
    proof {
        assert(d@.factors.take(0) =~= Seq::<SpecDTypeFactor>::empty());
        assert(dfactors_view(new_factors@) =~= Seq::<SpecDTypeFactor>::empty());
    }
    while i < d.factors.len()
        invariant
            0 <= i <= d.factors.len(),
            d@.factors.len() == d.factors@.len(),
            apply_dtype_factor_seq(substitution@, d@.factors.take(i as int)) == Result::<
                Seq<SpecDTypeFactor>,
                SpecType,
            >::Ok(dfactors_view(new_factors@)),
        decreases d.factors.len() - i,
    {
        let ghost prefix = d@.factors.take(i as int);
        let ghost factor_model = d@.factors[i as int];
        let ghost prev = new_factors@;
        proof {
            assert(factor_model == dtype_factor_view(d.factors@[i as int]));
            lemma_apply_dtype_factor_seq_snoc(substitution@, prefix, factor_model);
            assert(prefix.push(factor_model) =~= d@.factors.take(i as int + 1));
        }
        match &d.factors[i] {
            DTypeFactor::BaseDimension(name, exponent) => {
                let cloned = DTypeFactor::BaseDimension(name.clone(), *exponent);
                new_factors.push(cloned);
                proof {
                    assert(apply_dtype_factor(substitution@, factor_model) == Result::<
                        Seq<SpecDTypeFactor>,
                        SpecType,
                    >::Ok(seq![factor_model]));
                    assert(dfactors_view(new_factors@) =~= dfactors_view(prev) + seq![
                        factor_model,
                    ]);
                }
            },
            DTypeFactor::TVar(v) => match substitution.lookup(v) {
                Option::None => {
                    new_factors.push(DTypeFactor::TVar(*v));
                    proof {
                        assert(apply_dtype_factor(substitution@, factor_model) == Result::<
                            Seq<SpecDTypeFactor>,
                            SpecType,
                        >::Ok(seq![factor_model]));
                        assert(dfactors_view(new_factors@) =~= dfactors_view(prev) + seq![
                            factor_model,
                        ]);
                    }
                },
                Option::Some(bound) => match bound {
                    Type::TVar(w) => {
                        new_factors.push(DTypeFactor::TVar(*w));
                        proof {
                            assert(bound@ == SpecType::TVar(*w));
                            assert(apply_dtype_factor(substitution@, factor_model) == Result::<
                                Seq<SpecDTypeFactor>,
                                SpecType,
                            >::Ok(seq![SpecDTypeFactor::TVar(*w)]));
                            assert(dfactors_view(new_factors@) =~= dfactors_view(prev) + seq![
                                SpecDTypeFactor::TVar(*w),
                            ]);
                        }
                    },
                    Type::Dimension(d2) => {
                        let mut spliced = d2.clone();
                        new_factors.append(&mut spliced.factors);
                        proof {
                            assert(bound@ == SpecType::Dimension(d2@));
                            assert(apply_dtype_factor(substitution@, factor_model) == Result::<
                                Seq<SpecDTypeFactor>,
                                SpecType,
                            >::Ok(d2@.factors));
                            assert(dfactors_view(new_factors@) =~= dfactors_view(prev)
                                + d2@.factors);
                        }
                    },
                    _ => {
                        proof {
                            lemma_ty_view_variant(*bound);
                            lemma_apply_dtype_factor_seq_first_err(
                                substitution@,
                                d@.factors,
                                i as int,
                                bound@,
                            );
                        }
                        return Result::Err(
                            SubstitutionError::SubstitutedNonDTypeWithinDType(bound.clone()),
                        );
                    },
                },
            },
        }
        i += 1;
    }
    proof {
        assert(d@.factors.take(d.factors@.len() as int) =~= d@.factors);
    }
    let res = DType { factors: new_factors };
    Result::Ok(res)
}

/// Applies `substitution` to struct metadata: every field type, in order,
/// keeping field names and the field order.
pub fn subst_struct_info(info: &StructInfo, substitution: &Substitution) -> (r: Result<
    StructInfo,
    SubstitutionError,
>)
    ensures
        (match (r, apply_struct_info(substitution@, info@)) {
            (Result::Ok(info2), Result::Ok(u)) => info2@ == u,
            (Result::Err(e), Result::Err(u)) => err_view(e) == u,
            _ => false,
        }),
    decreases *info,
{
    let mut new_fields: Vec<(String, Type)> = Vec::new();
    let mut i: usize = 0;
    proof {
        lemma_field_view_seq(info.fields@);
        assert(info@.fields.take(0) =~= Seq::<(Seq<char>, SpecType)>::empty());
        lemma_field_view_seq(new_fields@);
        assert(field_view_seq(new_fields@) =~= Seq::<(Seq<char>, SpecType)>::empty());
    }
    while i < info.fields.len()
        invariant
            0 <= i <= info.fields.len(),
            info@.fields.len() == info.fields@.len(),
            apply_field_seq(substitution@, info@.fields.take(i as int)) == Result::<
                Seq<(Seq<char>, SpecType)>,
                SpecType,
            >::Ok(field_view_seq(new_fields@)),
        decreases info.fields.len() - i,
    {
        proof {
            assert(decreases_to!(*info => info.fields));
            assert(decreases_to!(info.fields => info.fields@[i as int]));
            lemma_field_view_seq(info.fields@);
        }
        let ghost prev = new_fields@;
        let field_name = info.fields[i].0.clone();
        match subst_type(&info.fields[i].1, substitution) {
            Result::Ok(t2) => {
                proof {
                    lemma_apply_field_seq_snoc(
                        substitution@,
                        info@.fields.take(i as int),
                        info@.fields[i as int],
                    );
                    assert(info@.fields.take(i as int).push(info@.fields[i as int])
                        =~= info@.fields.take(i as int + 1));
                }
                let ghost applied_view = t2@;
                let ghost name_view = field_name@;
                new_fields.push((field_name, t2));
                proof {
                    lemma_field_view_seq(prev);
                    lemma_field_view_seq(new_fields@);
                    assert(field_view_seq(new_fields@) =~= field_view_seq(prev).push(
                        (name_view, applied_view),
                    ));
                }
            },
            Result::Err(e) => {
                proof {
                    lemma_apply_field_seq_first_err(
                        substitution@,
                        info@.fields,
                        i as int,
                        err_view(e),
                    );
                }
                return Result::Err(e);
            },
        }
        i += 1;
    }
    proof {
        assert(info@.fields.take(info.fields@.len() as int) =~= info@.fields);
    }
    let res = StructInfo { name: info.name.clone(), fields: new_fields };
    Result::Ok(res)
}

/// Relates an executable expression application result to its model.
pub open spec fn expr_result_matches(
    r: Result<Expression, SubstitutionError>,
    m: Result<SpecExpression, SpecType>,
) -> bool {
    match (r, m) {
        (Result::Ok(e), Result::Ok(u)) => e@ == u,
        (Result::Err(e), Result::Err(u)) => err_view(e) == u,
        _ => false,
    }
}

/// Applies `substitution` to each field type of a field list, keeping names
/// and order.
pub fn subst_field_vec(fields: &Vec<(String, Type)>, substitution: &Substitution) -> (r: Result<
    Vec<(String, Type)>,
    SubstitutionError,
>)
    ensures
        (match (r, apply_field_seq(substitution@, field_view_seq(fields@))) {
            (Result::Ok(fs2), Result::Ok(u)) => field_view_seq(fs2@) == u,
            (Result::Err(e), Result::Err(u)) => err_view(e) == u,
            _ => false,
        }),
{
    let mut new_fields: Vec<(String, Type)> = Vec::new();
    let mut i: usize = 0;
    proof {
        lemma_field_view_seq(fields@);
        assert(field_view_seq(fields@).take(0) =~= Seq::<(Seq<char>, SpecType)>::empty());
        lemma_field_view_seq(new_fields@);
        assert(field_view_seq(new_fields@) =~= Seq::<(Seq<char>, SpecType)>::empty());
    }
    while i < fields.len()
        invariant
            0 <= i <= fields.len(),
            field_view_seq(fields@).len() == fields@.len(),
            apply_field_seq(substitution@, field_view_seq(fields@).take(i as int)) == Result::<
                Seq<(Seq<char>, SpecType)>,
                SpecType,
            >::Ok(field_view_seq(new_fields@)),
        decreases fields.len() - i,
    {
        proof {
            assert(decreases_to!(*fields => fields@[i as int]));
            lemma_field_view_seq(fields@);
        }
        let ghost prev = new_fields@;
        let field_name = fields[i].0.clone();
        match subst_type(&fields[i].1, substitution) {
            Result::Ok(t2) => {
                proof {
                    lemma_apply_field_seq_snoc(
                        substitution@,
                        field_view_seq(fields@).take(i as int),
                        field_view_seq(fields@)[i as int],
                    );
                    assert(field_view_seq(fields@).take(i as int).push(
                        field_view_seq(fields@)[i as int],
                    ) =~= field_view_seq(fields@).take(i as int + 1));
                }
                let ghost applied_view = t2@;
                let ghost name_view = field_name@;
                new_fields.push((field_name, t2));
                proof {
                    lemma_field_view_seq(prev);
                    lemma_field_view_seq(new_fields@);
                    assert(field_view_seq(new_fields@) =~= field_view_seq(prev).push(
                        (name_view, applied_view),
                    ));
                }
            },
            Result::Err(e) => {
                proof {
                    lemma_apply_field_seq_first_err(
                        substitution@,
                        field_view_seq(fields@),
                        i as int,
                        err_view(e),
                    );
                }
                return Result::Err(e);
            },
        }
        i += 1;
    }
    proof {
        assert(field_view_seq(fields@).take(fields@.len() as int) =~= field_view_seq(fields@));
    }
    Result::Ok(new_fields)
}

/// Applies `substitution` to each expression of a vector, in order, aborting
/// at the first failure.
pub fn subst_expr_vec(es: &Vec<Expression>, substitution: &Substitution) -> (r: Result<
    Vec<Expression>,
    SubstitutionError,
>)
    ensures
        (match (r, apply_expr_seq(substitution@, expr_view_seq(es@))) {
            (Result::Ok(es2), Result::Ok(u)) => expr_view_seq(es2@) == u,
            (Result::Err(e), Result::Err(u)) => err_view(e) == u,
            _ => false,
        }),
    decreases *es,
{
    let mut new_es: Vec<Expression> = Vec::new();
    let mut i: usize = 0;
    proof {
        lemma_expr_view_seq(es@);
        assert(expr_view_seq(es@).take(0) =~= Seq::<SpecExpression>::empty());
        assert(expr_view_seq(new_es@) =~= Seq::<SpecExpression>::empty());
    }
    while i < es.len()
        invariant
            0 <= i <= es.len(),
            expr_view_seq(es@).len() == es@.len(),
            apply_expr_seq(substitution@, expr_view_seq(es@).take(i as int)) == Result::<
                Seq<SpecExpression>,
                SpecType,
            >::Ok(expr_view_seq(new_es@)),
        decreases es.len() - i,
    {
        proof {
            assert(decreases_to!(*es => es@[i as int]));
            lemma_expr_view_seq(es@);
        }
        let ghost prev = new_es@;
        match subst_expr(&es[i], substitution) {
            Result::Ok(e2) => {
                proof {
                    lemma_apply_expr_seq_snoc(
                        substitution@,
                        expr_view_seq(es@).take(i as int),
                        expr_view(es@[i as int]),
                    );
                    assert(expr_view_seq(es@).take(i as int).push(expr_view(es@[i as int]))
                        =~= expr_view_seq(es@).take(i as int + 1));
                }
                let ghost applied_view = e2@;
                new_es.push(e2);
                proof {
                    lemma_expr_view_seq(prev);
                    lemma_expr_view_seq(new_es@);
                    assert(expr_view_seq(new_es@) =~= expr_view_seq(prev).push(applied_view));
                }
            },
            Result::Err(e) => {
                proof {
                    lemma_apply_expr_seq_first_err(
                        substitution@,
                        expr_view_seq(es@),
                        i as int,
                        err_view(e),
                    );
                }
                return Result::Err(e);
            },
        }
        i += 1;
    }
    proof {
        assert(expr_view_seq(es@).take(es@.len() as int) =~= expr_view_seq(es@));
    }
    Result::Ok(new_es)
}

/// Applies `substitution` to each initializer value, keeping names and
/// order, aborting at the first failure.
pub fn subst_init_vec(inits: &Vec<(String, Expression)>, substitution: &Substitution) -> (r:
    Result<Vec<(String, Expression)>, SubstitutionError>)
    ensures
        (match (r, apply_init_seq(substitution@, init_view_seq(inits@))) {
            (Result::Ok(is2), Result::Ok(u)) => init_view_seq(is2@) == u,
            (Result::Err(e), Result::Err(u)) => err_view(e) == u,
            _ => false,
        }),
    decreases *inits,
{
    let mut new_inits: Vec<(String, Expression)> = Vec::new();
    let mut i: usize = 0;
    proof {
        lemma_init_view_seq(inits@);
        assert(init_view_seq(inits@).take(0) =~= Seq::<(Seq<char>, SpecExpression)>::empty());
        lemma_init_view_seq(new_inits@);
        assert(init_view_seq(new_inits@) =~= Seq::<(Seq<char>, SpecExpression)>::empty());
    }
    while i < inits.len()
        invariant
            0 <= i <= inits.len(),
            init_view_seq(inits@).len() == inits@.len(),
            apply_init_seq(substitution@, init_view_seq(inits@).take(i as int)) == Result::<
                Seq<(Seq<char>, SpecExpression)>,
                SpecType,
            >::Ok(init_view_seq(new_inits@)),
        decreases inits.len() - i,
    {
        proof {
            assert(decreases_to!(*inits => inits@[i as int]));
            assert(decreases_to!(inits@[i as int] => inits@[i as int].1));
            lemma_init_view_seq(inits@);
        }
        let ghost prev = new_inits@;
        let init_name = inits[i].0.clone();
        match subst_expr(&inits[i].1, substitution) {
            Result::Ok(e2) => {
                proof {
                    lemma_apply_init_seq_snoc(
                        substitution@,
                        init_view_seq(inits@).take(i as int),
                        init_view_seq(inits@)[i as int],
                    );
                    assert(init_view_seq(inits@).take(i as int).push(
                        init_view_seq(inits@)[i as int],
                    ) =~= init_view_seq(inits@).take(i as int + 1));
                }
                let ghost applied_view = e2@;
                let ghost name_view = init_name@;
                new_inits.push((init_name, e2));
                proof {
                    lemma_init_view_seq(prev);
                    lemma_init_view_seq(new_inits@);
                    assert(init_view_seq(new_inits@) =~= init_view_seq(prev).push(
                        (name_view, applied_view),
                    ));
                }
            },
            Result::Err(e) => {
                proof {
                    lemma_apply_init_seq_first_err(
                        substitution@,
                        init_view_seq(inits@),
                        i as int,
                        err_view(e),
                    );
                }
                return Result::Err(e);
            },
        }
        i += 1;
    }
    proof {
        assert(init_view_seq(inits@).take(inits@.len() as int) =~= init_view_seq(inits@));
    }
    Result::Ok(new_inits)
}

/// Applies `substitution` to an expression: every owned sub-expression
/// first, then the node's own type annotations.
pub fn subst_expr(e: &Expression, substitution: &Substitution) -> (r: Result<
    Expression,
    SubstitutionError,
>)
    ensures
        expr_result_matches(r, apply_expr(substitution@, e@)),
    decreases *e,
{
    match e {
        Expression::Scalar(value, t) => match subst_type(t, substitution) {
            Result::Ok(t2) => Result::Ok(Expression::Scalar(*value, t2)),
            Result::Err(err) => Result::Err(err),
        },
        Expression::Identifier(name, t) => match subst_type(t, substitution) {
            Result::Ok(t2) => Result::Ok(Expression::Identifier(name.clone(), t2)),
            Result::Err(err) => Result::Err(err),
        },
        Expression::UnitIdentifier(name, t) => match subst_type(t, substitution) {
            Result::Ok(t2) => Result::Ok(Expression::UnitIdentifier(name.clone(), t2)),
            Result::Err(err) => Result::Err(err),
        },
        Expression::UnaryOperator(operand, t) => match subst_expr(operand, substitution) {
            Result::Err(err) => Result::Err(err),
            Result::Ok(o2) => match subst_type(t, substitution) {
                Result::Err(err) => Result::Err(err),
                Result::Ok(t2) => Result::Ok(Expression::UnaryOperator(Box::new(o2), t2)),
            },
        },
        Expression::BinaryOperator(lhs, rhs, t) => match subst_expr(lhs, substitution) {
            Result::Err(err) => Result::Err(err),
            Result::Ok(l2) => match subst_expr(rhs, substitution) {
                Result::Err(err) => Result::Err(err),
                Result::Ok(r2) => match subst_type(t, substitution) {
                    Result::Err(err) => Result::Err(err),
                    Result::Ok(t2) => Result::Ok(
                        Expression::BinaryOperator(Box::new(l2), Box::new(r2), t2),
                    ),
                },
            },
        },
        Expression::BinaryOperatorForDate(lhs, rhs, t) => match subst_expr(lhs, substitution) {
            Result::Err(err) => Result::Err(err),
            Result::Ok(l2) => match subst_expr(rhs, substitution) {
                Result::Err(err) => Result::Err(err),
                Result::Ok(r2) => match subst_type(t, substitution) {
                    Result::Err(err) => Result::Err(err),
                    Result::Ok(t2) => Result::Ok(
                        Expression::BinaryOperatorForDate(Box::new(l2), Box::new(r2), t2),
                    ),
                },
            },
        },
        Expression::FunctionCall(name, args, t) => {
            proof {
                assert(decreases_to!(*e => e->FunctionCall_1));
            }
            match subst_expr_vec(args, substitution) {
                Result::Err(err) => Result::Err(err),
                Result::Ok(args2) => match subst_type(t, substitution) {
                    Result::Err(err) => Result::Err(err),
                    Result::Ok(t2) => Result::Ok(
                        Expression::FunctionCall(name.clone(), args2, t2),
                    ),
                },
            }
        },
        Expression::CallableCall(callable, args, t) => {
            proof {
                assert(decreases_to!(*e => e->CallableCall_1));
            }
            match subst_expr(callable, substitution) {
                Result::Err(err) => Result::Err(err),
                Result::Ok(c2) => match subst_expr_vec(args, substitution) {
                    Result::Err(err) => Result::Err(err),
                    Result::Ok(args2) => match subst_type(t, substitution) {
                        Result::Err(err) => Result::Err(err),
                        Result::Ok(t2) => Result::Ok(
                            Expression::CallableCall(Box::new(c2), args2, t2),
                        ),
                    },
                },
            }
        },
        Expression::Boolean(value) => Result::Ok(Expression::Boolean(*value)),
        Expression::Condition(cond, then_branch, else_branch) => match subst_expr(
            cond,
            substitution,
        ) {
            Result::Err(err) => Result::Err(err),
            Result::Ok(c2) => match subst_expr(then_branch, substitution) {
                Result::Err(err) => Result::Err(err),
                Result::Ok(th2) => match subst_expr(else_branch, substitution) {
                    Result::Err(err) => Result::Err(err),
                    Result::Ok(el2) => Result::Ok(
                        Expression::Condition(Box::new(c2), Box::new(th2), Box::new(el2)),
                    ),
                },
            },
        },
        Expression::String(value) => Result::Ok(Expression::String(value.clone())),
        Expression::InstantiateStruct(initializers, info) => {
            proof {
                assert(decreases_to!(*e => e->InstantiateStruct_0));
            }
            match subst_init_vec(initializers, substitution) {
                Result::Err(err) => Result::Err(err),
                Result::Ok(inits2) => match subst_struct_info(info, substitution) {
                    Result::Err(err) => Result::Err(err),
                    Result::Ok(info2) => Result::Ok(
                        Expression::InstantiateStruct(inits2, info2),
                    ),
                },
            }
        },
        Expression::AccessField(instance, field, info, t) => match subst_expr(
            instance,
            substitution,
        ) {
            Result::Err(err) => Result::Err(err),
            Result::Ok(i2) => match subst_struct_info(info, substitution) {
                Result::Err(err) => Result::Err(err),
                Result::Ok(info2) => match subst_type(t, substitution) {
                    Result::Err(err) => Result::Err(err),
                    Result::Ok(t2) => Result::Ok(
                        Expression::AccessField(Box::new(i2), field.clone(), info2, t2),
                    ),
                },
            },
        },
        Expression::List(elements, t) => {
            proof {
                assert(decreases_to!(*e => e->List_0));
            }
            match subst_expr_vec(elements, substitution) {
                Result::Err(err) => Result::Err(err),
                Result::Ok(es2) => match subst_type(t, substitution) {
                    Result::Err(err) => Result::Err(err),
                    Result::Ok(t2) => Result::Ok(Expression::List(es2, t2)),
                },
            }
        },
    }
}

/// Applies `substitution` to a statement: every owned sub-expression first,
/// then the statement's own type annotations.
pub fn subst_stmt(st: &Statement, substitution: &Substitution) -> (r: Result<
    Statement,
    SubstitutionError,
>)
    ensures
        (match (r, apply_stmt(substitution@, st@)) {
            (Result::Ok(st2), Result::Ok(u)) => st2@ == u,
            (Result::Err(e), Result::Err(u)) => err_view(e) == u,
            _ => false,
        }),
{
    match st {
        Statement::Expression(e) => match subst_expr(e, substitution) {
            Result::Err(err) => Result::Err(err),
            Result::Ok(e2) => Result::Ok(Statement::Expression(e2)),
        },
        Statement::DefineVariable(name, e, t) => match subst_expr(e, substitution) {
            Result::Err(err) => Result::Err(err),
            Result::Ok(e2) => match subst_type(t, substitution) {
                Result::Err(err) => Result::Err(err),
                Result::Ok(t2) => Result::Ok(Statement::DefineVariable(name.clone(), e2, t2)),
            },
        },
        Statement::DefineFunction(name, parameters, body, return_type) => {
            match subst_field_vec(parameters, substitution) {
                Result::Err(err) => Result::Err(err),
                Result::Ok(params2) => {
                    let new_body = match body {
                        Option::Some(b) => match subst_expr(b, substitution) {
                            Result::Err(err) => {
                                return Result::Err(err);
                            },
                            Result::Ok(b2) => Option::Some(b2),
                        },
                        Option::None => Option::None,
                    };
                    match subst_type(return_type, substitution) {
                        Result::Err(err) => Result::Err(err),
                        Result::Ok(t2) => Result::Ok(
                            Statement::DefineFunction(name.clone(), params2, new_body, t2),
                        ),
                    }
                },
            }
        },
        Statement::DefineDimension(name) => Result::Ok(Statement::DefineDimension(name.clone())),
        Statement::DefineBaseUnit(name, t) => match subst_type(t, substitution) {
            Result::Err(err) => Result::Err(err),
            Result::Ok(t2) => Result::Ok(Statement::DefineBaseUnit(name.clone(), t2)),
        },
        Statement::DefineDerivedUnit(name, e, t) => match subst_expr(e, substitution) {
            Result::Err(err) => Result::Err(err),
            Result::Ok(e2) => match subst_type(t, substitution) {
                Result::Err(err) => Result::Err(err),
                Result::Ok(t2) => Result::Ok(
                    Statement::DefineDerivedUnit(name.clone(), e2, t2),
                ),
            },
        },
        Statement::ProcedureCall(args) => match subst_expr_vec(args, substitution) {
            Result::Err(err) => Result::Err(err),
            Result::Ok(args2) => Result::Ok(Statement::ProcedureCall(args2)),
        },
        Statement::DefineStruct(info) => match subst_struct_info(info, substitution) {
            Result::Err(err) => Result::Err(err),
            Result::Ok(info2) => Result::Ok(Statement::DefineStruct(info2)),
        },
    }
}

/// Appending one expression to a sequence applies the substitution to it
/// last.
pub proof fn lemma_apply_expr_seq_snoc(
    s: Seq<(TypeVariable, SpecType)>,
    es: Seq<SpecExpression>,
    x: SpecExpression,
)
    ensures
        apply_expr_seq(s, es.push(x)) == (match apply_expr_seq(s, es) {
            Result::<Seq<SpecExpression>, SpecType>::Err(e) => Result::<
                Seq<SpecExpression>,
                SpecType,
            >::Err(e),
            Result::<Seq<SpecExpression>, SpecType>::Ok(rs) => match apply_expr(s, x) {
                Result::<SpecExpression, SpecType>::Err(e) => Result::<
                    Seq<SpecExpression>,
                    SpecType,
                >::Err(e),
                Result::<SpecExpression, SpecType>::Ok(r) => Result::<
                    Seq<SpecExpression>,
                    SpecType,
                >::Ok(rs.push(r)),
            },
        }),
    decreases es.len(),
{
    if es.len() == 0 {
        assert(es.push(x)[0] == x);
        assert(es.push(x).drop_first() =~= Seq::<SpecExpression>::empty());
        assert(apply_expr_seq(s, Seq::<SpecExpression>::empty()) == Result::<
            Seq<SpecExpression>,
            SpecType,
        >::Ok(Seq::<SpecExpression>::empty()));
        if apply_expr(s, x) is Ok {
            assert(seq![apply_expr(s, x)->Ok_0] + Seq::<SpecExpression>::empty() =~= Seq::<
                SpecExpression,
            >::empty().push(apply_expr(s, x)->Ok_0));
        }
    } else {
        assert(es.push(x)[0] == es[0]);
        assert(es.push(x).drop_first() =~= es.drop_first().push(x));
        lemma_apply_expr_seq_snoc(s, es.drop_first(), x);
        if apply_expr(s, es[0]) is Ok && apply_expr_seq(s, es.drop_first()) is Ok && apply_expr(
            s,
            x,
        ) is Ok {
            let r0 = apply_expr(s, es[0])->Ok_0;
            let rs = apply_expr_seq(s, es.drop_first())->Ok_0;
            let r = apply_expr(s, x)->Ok_0;
            assert(seq![r0] + rs.push(r) =~= (seq![r0] + rs).push(r));
        }
    }
}

/// If every expression before `i` applies cleanly and the one at `i` fails,
/// the whole sequence fails with that error.
pub proof fn lemma_apply_expr_seq_first_err(
    s: Seq<(TypeVariable, SpecType)>,
    es: Seq<SpecExpression>,
    i: int,
    e: SpecType,
)
    requires
        0 <= i < es.len(),
        apply_expr_seq(s, es.take(i)) is Ok,
        apply_expr(s, es[i]) == Result::<SpecExpression, SpecType>::Err(e),
    ensures
        apply_expr_seq(s, es) == Result::<Seq<SpecExpression>, SpecType>::Err(e),
    decreases i,
{
    if i == 0 {
        assert(apply_expr(s, es[0]) is Err);
    } else {
        assert(es.take(i)[0] == es[0]);
        assert(apply_expr(s, es[0]) is Ok);
        assert(es.take(i).drop_first() =~= es.drop_first().take(i - 1));
        assert(es.drop_first()[i - 1] == es[i]);
        lemma_apply_expr_seq_first_err(s, es.drop_first(), i - 1, e);
    }
}

/// Appending one initializer to a sequence applies the substitution to it
/// last.
pub proof fn lemma_apply_init_seq_snoc(
    s: Seq<(TypeVariable, SpecType)>,
    inits: Seq<(Seq<char>, SpecExpression)>,
    x: (Seq<char>, SpecExpression),
)
    ensures
        apply_init_seq(s, inits.push(x)) == (match apply_init_seq(s, inits) {
            Result::<Seq<(Seq<char>, SpecExpression)>, SpecType>::Err(e) => Result::<
                Seq<(Seq<char>, SpecExpression)>,
                SpecType,
            >::Err(e),
            Result::<Seq<(Seq<char>, SpecExpression)>, SpecType>::Ok(rs) => match apply_expr(
                s,
                x.1,
            ) {
                Result::<SpecExpression, SpecType>::Err(e) => Result::<
                    Seq<(Seq<char>, SpecExpression)>,
                    SpecType,
                >::Err(e),
                Result::<SpecExpression, SpecType>::Ok(r) => Result::<
                    Seq<(Seq<char>, SpecExpression)>,
                    SpecType,
                >::Ok(rs.push((x.0, r))),
            },
        }),
    decreases inits.len(),
{
    if inits.len() == 0 {
        assert(inits.push(x)[0] == x);
        assert(inits.push(x).drop_first() =~= Seq::<(Seq<char>, SpecExpression)>::empty());
        assert(apply_init_seq(s, Seq::<(Seq<char>, SpecExpression)>::empty()) == Result::<
            Seq<(Seq<char>, SpecExpression)>,
            SpecType,
        >::Ok(Seq::<(Seq<char>, SpecExpression)>::empty()));
        if apply_expr(s, x.1) is Ok {
            assert(seq![(x.0, apply_expr(s, x.1)->Ok_0)] + Seq::<
                (Seq<char>, SpecExpression),
            >::empty() =~= Seq::<(Seq<char>, SpecExpression)>::empty().push(
                (x.0, apply_expr(s, x.1)->Ok_0),
            ));
        }
    } else {
        assert(inits.push(x)[0] == inits[0]);
        assert(inits.push(x).drop_first() =~= inits.drop_first().push(x));
        lemma_apply_init_seq_snoc(s, inits.drop_first(), x);
        if apply_expr(s, inits[0].1) is Ok && apply_init_seq(s, inits.drop_first()) is Ok
            && apply_expr(s, x.1) is Ok {
            let r0 = (inits[0].0, apply_expr(s, inits[0].1)->Ok_0);
            let rs = apply_init_seq(s, inits.drop_first())->Ok_0;
            let r = (x.0, apply_expr(s, x.1)->Ok_0);
            assert(seq![r0] + rs.push(r) =~= (seq![r0] + rs).push(r));
        }
    }
}

/// If every initializer before `i` applies cleanly and the one at `i`
/// fails, the whole sequence fails with that error.
pub proof fn lemma_apply_init_seq_first_err(
    s: Seq<(TypeVariable, SpecType)>,
    inits: Seq<(Seq<char>, SpecExpression)>,
    i: int,
    e: SpecType,
)
    requires
        0 <= i < inits.len(),
        apply_init_seq(s, inits.take(i)) is Ok,
        apply_expr(s, inits[i].1) == Result::<SpecExpression, SpecType>::Err(e),
    ensures
        apply_init_seq(s, inits) == Result::<Seq<(Seq<char>, SpecExpression)>, SpecType>::Err(e),
    decreases i,
{
    if i == 0 {
        assert(apply_expr(s, inits[0].1) is Err);
    } else {
        assert(inits.take(i)[0] == inits[0]);
        assert(apply_expr(s, inits[0].1) is Ok);
        assert(inits.take(i).drop_first() =~= inits.drop_first().take(i - 1));
        assert(inits.drop_first()[i - 1] == inits[i]);
        lemma_apply_init_seq_first_err(s, inits.drop_first(), i - 1, e);
    }
}

/// The view of a type keeps its variant.
proof fn lemma_ty_view_variant(t: Type)
    ensures
        (t@ is TVar <==> t is TVar),
        (t@ is Dimension <==> t is Dimension),
{
    match t {
        Type::TVar(_) => {},
        Type::Dimension(_) => {},
        Type::Boolean => {},
        Type::String => {},
        Type::DateTime => {},
        Type::Fn(_, _) => {},
        Type::Struct(_) => {},
        Type::List(_) => {},
    }
}

/// Appending one type to a sequence applies the substitution to it last.
pub proof fn lemma_apply_ty_seq_snoc(
    s: Seq<(TypeVariable, SpecType)>,
    ts: Seq<SpecType>,
    x: SpecType,
)
    ensures
        apply_ty_seq(s, ts.push(x)) == (match apply_ty_seq(s, ts) {
            Result::<Seq<SpecType>, SpecType>::Err(e) => Result::<Seq<SpecType>, SpecType>::Err(e),
            Result::<Seq<SpecType>, SpecType>::Ok(rs) => match apply_ty(s, x) {
                Result::<SpecType, SpecType>::Err(e) => Result::<Seq<SpecType>, SpecType>::Err(e),
                Result::<SpecType, SpecType>::Ok(r) => Result::<Seq<SpecType>, SpecType>::Ok(
                    rs.push(r),
                ),
            },
        }),
    decreases ts.len(),
{
    if ts.len() == 0 {
        assert(ts.push(x)[0] == x);
        assert(ts.push(x).drop_first() =~= Seq::<SpecType>::empty());
        assert(apply_ty_seq(s, Seq::<SpecType>::empty()) == Result::<
            Seq<SpecType>,
            SpecType,
        >::Ok(Seq::<SpecType>::empty()));
        if apply_ty(s, x) is Ok {
            assert(seq![apply_ty(s, x)->Ok_0] + Seq::<SpecType>::empty() =~= Seq::<
                SpecType,
            >::empty().push(apply_ty(s, x)->Ok_0));
        }
    } else {
        assert(ts.push(x)[0] == ts[0]);
        assert(ts.push(x).drop_first() =~= ts.drop_first().push(x));
        lemma_apply_ty_seq_snoc(s, ts.drop_first(), x);
        if apply_ty(s, ts[0]) is Ok && apply_ty_seq(s, ts.drop_first()) is Ok && apply_ty(s, x)
            is Ok {
            let r0 = apply_ty(s, ts[0])->Ok_0;
            let rs = apply_ty_seq(s, ts.drop_first())->Ok_0;
            let r = apply_ty(s, x)->Ok_0;
            assert(seq![r0] + rs.push(r) =~= (seq![r0] + rs).push(r));
        }
    }
}

/// If every type before `i` applies cleanly and the one at `i` fails, the
/// whole sequence fails with that error.
pub proof fn lemma_apply_ty_seq_first_err(
    s: Seq<(TypeVariable, SpecType)>,
    ts: Seq<SpecType>,
    i: int,
    e: SpecType,
)
    requires
        0 <= i < ts.len(),
        apply_ty_seq(s, ts.take(i)) is Ok,
        apply_ty(s, ts[i]) == Result::<SpecType, SpecType>::Err(e),
    ensures
        apply_ty_seq(s, ts) == Result::<Seq<SpecType>, SpecType>::Err(e),
    decreases i,
{
    if i == 0 {
        assert(apply_ty(s, ts[0]) is Err);
    } else {
        assert(ts.take(i)[0] == ts[0]);
        assert(apply_ty(s, ts[0]) is Ok);
        assert(ts.take(i).drop_first() =~= ts.drop_first().take(i - 1));
        assert(ts.drop_first()[i - 1] == ts[i]);
        lemma_apply_ty_seq_first_err(s, ts.drop_first(), i - 1, e);
    }
}

/// Appending one field to a sequence applies the substitution to it last.
pub proof fn lemma_apply_field_seq_snoc(
    s: Seq<(TypeVariable, SpecType)>,
    fs: Seq<(Seq<char>, SpecType)>,
    x: (Seq<char>, SpecType),
)
    ensures
        apply_field_seq(s, fs.push(x)) == (match apply_field_seq(s, fs) {
            Result::<Seq<(Seq<char>, SpecType)>, SpecType>::Err(e) => Result::<
                Seq<(Seq<char>, SpecType)>,
                SpecType,
            >::Err(e),
            Result::<Seq<(Seq<char>, SpecType)>, SpecType>::Ok(rs) => match apply_ty(s, x.1) {
                Result::<SpecType, SpecType>::Err(e) => Result::<
                    Seq<(Seq<char>, SpecType)>,
                    SpecType,
                >::Err(e),
                Result::<SpecType, SpecType>::Ok(r) => Result::<
                    Seq<(Seq<char>, SpecType)>,
                    SpecType,
                >::Ok(rs.push((x.0, r))),
            },
        }),
    decreases fs.len(),
{
    if fs.len() == 0 {
        assert(fs.push(x)[0] == x);
        assert(fs.push(x).drop_first() =~= Seq::<(Seq<char>, SpecType)>::empty());
        assert(apply_field_seq(s, Seq::<(Seq<char>, SpecType)>::empty()) == Result::<
            Seq<(Seq<char>, SpecType)>,
            SpecType,
        >::Ok(Seq::<(Seq<char>, SpecType)>::empty()));
        if apply_ty(s, x.1) is Ok {
            assert(seq![(x.0, apply_ty(s, x.1)->Ok_0)] + Seq::<(Seq<char>, SpecType)>::empty()
                =~= Seq::<(Seq<char>, SpecType)>::empty().push((x.0, apply_ty(s, x.1)->Ok_0)));
        }
    } else {
        assert(fs.push(x)[0] == fs[0]);
        assert(fs.push(x).drop_first() =~= fs.drop_first().push(x));
        lemma_apply_field_seq_snoc(s, fs.drop_first(), x);
        if apply_ty(s, fs[0].1) is Ok && apply_field_seq(s, fs.drop_first()) is Ok && apply_ty(
            s,
            x.1,
        ) is Ok {
            let r0 = (fs[0].0, apply_ty(s, fs[0].1)->Ok_0);
            let rs = apply_field_seq(s, fs.drop_first())->Ok_0;
            let r = (x.0, apply_ty(s, x.1)->Ok_0);
            assert(seq![r0] + rs.push(r) =~= (seq![r0] + rs).push(r));
        }
    }
}

/// If every field before `i` applies cleanly and the one at `i` fails, the
/// whole sequence fails with that error.
pub proof fn lemma_apply_field_seq_first_err(
    s: Seq<(TypeVariable, SpecType)>,
    fs: Seq<(Seq<char>, SpecType)>,
    i: int,
    e: SpecType,
)
    requires
        0 <= i < fs.len(),
        apply_field_seq(s, fs.take(i)) is Ok,
        apply_ty(s, fs[i].1) == Result::<SpecType, SpecType>::Err(e),
    ensures
        apply_field_seq(s, fs) == Result::<Seq<(Seq<char>, SpecType)>, SpecType>::Err(e),
    decreases i,
{
    if i == 0 {
        assert(apply_ty(s, fs[0].1) is Err);
    } else {
        assert(fs.take(i)[0] == fs[0]);
        assert(apply_ty(s, fs[0].1) is Ok);
        assert(fs.take(i).drop_first() =~= fs.drop_first().take(i - 1));
        assert(fs.drop_first()[i - 1] == fs[i]);
        lemma_apply_field_seq_first_err(s, fs.drop_first(), i - 1, e);
    }
}

/// Appending one factor to a run splices its replacement last.
pub proof fn lemma_apply_dtype_factor_seq_snoc(
    s: Seq<(TypeVariable, SpecType)>,
    fs: Seq<SpecDTypeFactor>,
    x: SpecDTypeFactor,
)
    ensures
        apply_dtype_factor_seq(s, fs.push(x)) == (match apply_dtype_factor_seq(s, fs) {
            Result::<Seq<SpecDTypeFactor>, SpecType>::Err(e) => Result::<
                Seq<SpecDTypeFactor>,
                SpecType,
            >::Err(e),
            Result::<Seq<SpecDTypeFactor>, SpecType>::Ok(rs) => match apply_dtype_factor(s, x) {
                Result::<Seq<SpecDTypeFactor>, SpecType>::Err(e) => Result::<
                    Seq<SpecDTypeFactor>,
                    SpecType,
                >::Err(e),
                Result::<Seq<SpecDTypeFactor>, SpecType>::Ok(r) => Result::<
                    Seq<SpecDTypeFactor>,
                    SpecType,
                >::Ok(rs + r),
            },
        }),
    decreases fs.len(),
{
    if fs.len() == 0 {
        assert(fs.push(x)[0] == x);
        assert(fs.push(x).drop_first() =~= Seq::<SpecDTypeFactor>::empty());
        assert(apply_dtype_factor_seq(s, Seq::<SpecDTypeFactor>::empty()) == Result::<
            Seq<SpecDTypeFactor>,
            SpecType,
        >::Ok(Seq::<SpecDTypeFactor>::empty()));
        if apply_dtype_factor(s, x) is Ok {
            let r = apply_dtype_factor(s, x)->Ok_0;
            assert(r + Seq::<SpecDTypeFactor>::empty() =~= Seq::<SpecDTypeFactor>::empty() + r);
        }
    } else {
        assert(fs.push(x)[0] == fs[0]);
        assert(fs.push(x).drop_first() =~= fs.drop_first().push(x));
        lemma_apply_dtype_factor_seq_snoc(s, fs.drop_first(), x);
        if apply_dtype_factor(s, fs[0]) is Ok && apply_dtype_factor_seq(s, fs.drop_first()) is Ok
            && apply_dtype_factor(s, x) is Ok {
            let r0 = apply_dtype_factor(s, fs[0])->Ok_0;
            let rs = apply_dtype_factor_seq(s, fs.drop_first())->Ok_0;
            let r = apply_dtype_factor(s, x)->Ok_0;
            assert(r0 + (rs + r) =~= (r0 + rs) + r);
        }
    }
}

/// If every factor before `i` splices cleanly and the one at `i` fails, the
/// whole run fails with that error.
pub proof fn lemma_apply_dtype_factor_seq_first_err(
    s: Seq<(TypeVariable, SpecType)>,
    fs: Seq<SpecDTypeFactor>,
    i: int,
    e: SpecType,
)
    requires
        0 <= i < fs.len(),
        apply_dtype_factor_seq(s, fs.take(i)) is Ok,
        apply_dtype_factor(s, fs[i]) == Result::<Seq<SpecDTypeFactor>, SpecType>::Err(e),
    ensures
        apply_dtype_factor_seq(s, fs) == Result::<Seq<SpecDTypeFactor>, SpecType>::Err(e),
    decreases i,
{
    if i == 0 {
        assert(apply_dtype_factor(s, fs[0]) is Err);
    } else {
        assert(fs.take(i)[0] == fs[0]);
        assert(apply_dtype_factor(s, fs[0]) is Ok);
        assert(fs.take(i).drop_first() =~= fs.drop_first().take(i - 1));
        assert(fs.drop_first()[i - 1] == fs[i]);
        lemma_apply_dtype_factor_seq_first_err(s, fs.drop_first(), i - 1, e);
    }
}

/// The capability of applying a substitution to oneself and every type one
/// transitively owns. Application is all-or-nothing: on failure the node is
/// left unchanged.
pub trait ApplySubstitution: View + Sized {
    /// What applying a substitution to this node's model yields.
    spec fn spec_apply(s: Seq<(TypeVariable, SpecType)>, m: Self::V) -> Result<Self::V, SpecType>;

    /// Applies `substitution` in place; the first error aborts the whole
    /// operation and leaves the node unchanged.
    fn apply(&mut self, substitution: &Substitution) -> (r: Result<(), SubstitutionError>)
        ensures
            (match Self::spec_apply(substitution@, old(self)@) {
                Result::Ok(m) => r is Ok && final(self)@ == m,
                Result::Err(u) => r matches Err(e) && err_view(e) == u && final(self)@ == old(
                    self,
                )@,
            }),
    ;
}

impl ApplySubstitution for Type {
    open spec fn spec_apply(s: Seq<(TypeVariable, SpecType)>, m: SpecType) -> Result<
        SpecType,
        SpecType,
    > {
        apply_ty(s, m)
    }

    fn apply(&mut self, substitution: &Substitution) -> (r: Result<(), SubstitutionError>) {
        match subst_type(self, substitution) {
            Result::Ok(t2) => {
                *self = t2;
                Result::Ok(())
            },
            Result::Err(e) => Result::Err(e),
        }
    }
}

impl ApplySubstitution for DType {
    open spec fn spec_apply(s: Seq<(TypeVariable, SpecType)>, m: SpecDType) -> Result<
        SpecDType,
        SpecType,
    > {
        apply_dtype(s, m)
    }

    fn apply(&mut self, substitution: &Substitution) -> (r: Result<(), SubstitutionError>) {
        match subst_dtype(self, substitution) {
            Result::Ok(d2) => {
                *self = d2;
                Result::Ok(())
            },
            Result::Err(e) => Result::Err(e),
        }
    }
}

impl ApplySubstitution for StructInfo {
    open spec fn spec_apply(s: Seq<(TypeVariable, SpecType)>, m: SpecStructInfo) -> Result<
        SpecStructInfo,
        SpecType,
    > {
        apply_struct_info(s, m)
    }

    fn apply(&mut self, substitution: &Substitution) -> (r: Result<(), SubstitutionError>) {
        match subst_struct_info(self, substitution) {
            Result::Ok(info2) => {
                *self = info2;
                Result::Ok(())
            },
            Result::Err(e) => Result::Err(e),
        }
    }
}

impl ApplySubstitution for Expression {
    open spec fn spec_apply(s: Seq<(TypeVariable, SpecType)>, m: SpecExpression) -> Result<
        SpecExpression,
        SpecType,
    > {
        apply_expr(s, m)
    }

    fn apply(&mut self, substitution: &Substitution) -> (r: Result<(), SubstitutionError>) {
        match subst_expr(self, substitution) {
            Result::Ok(e2) => {
                *self = e2;
                Result::Ok(())
            },
            Result::Err(e) => Result::Err(e),
        }
    }
}

impl ApplySubstitution for Statement {
    open spec fn spec_apply(s: Seq<(TypeVariable, SpecType)>, m: SpecStatement) -> Result<
        SpecStatement,
        SpecType,
    > {
        apply_stmt(s, m)
    }

    fn apply(&mut self, substitution: &Substitution) -> (r: Result<(), SubstitutionError>) {
        match subst_stmt(self, substitution) {
            Result::Ok(st2) => {
                *self = st2;
                Result::Ok(())
            },
            Result::Err(e) => Result::Err(e),
        }
    }
}

/// The model of `Substitution::extend`: every type bound in `s1` has `s2`
/// applied to it, then `s2`'s own bindings are appended.
pub open spec fn compose_subst(
    s1: Seq<(TypeVariable, SpecType)>,
    s2: Seq<(TypeVariable, SpecType)>,
) -> Seq<(TypeVariable, SpecType)> {
    Seq::new(s1.len(), |i: int| (s1[i].0, apply_ty(s2, s1[i].1)->Ok_0)) + s2
}

/// A successful lookup returns a binding stored in the substitution.
pub proof fn lemma_lookup_in(s: Seq<(TypeVariable, SpecType)>, v: TypeVariable)
    ensures
        (spec_lookup(s, v) matches Option::Some(t) ==> exists|i: int|
            0 <= i < s.len() && s[i] == (v, t)),
    decreases s.len(),
{
    if s.len() > 0 && s[0].0 != v {
        lemma_lookup_in(s.drop_first(), v);
        if spec_lookup(s, v) is Some {
            let t = spec_lookup(s, v)->Some_0;
            let i = choose|i: int|
                0 <= i < s.drop_first().len() && s.drop_first()[i] == (v, t);
            assert(s[i + 1] == (v, t));
        }
    }
}

/// Looking a variable up in a composition: a binding of `s1` comes back with
/// `s2` applied; an unbound variable falls through to `s2`.
pub proof fn lemma_compose_lookup(
    s1: Seq<(TypeVariable, SpecType)>,
    s2: Seq<(TypeVariable, SpecType)>,
    v: TypeVariable,
)
    ensures
        (match spec_lookup(s1, v) {
            Option::Some(t1) => spec_lookup(compose_subst(s1, s2), v) == Option::Some(
                apply_ty(s2, t1)->Ok_0,
            ),
            Option::None => spec_lookup(compose_subst(s1, s2), v) == spec_lookup(s2, v),
        }),
    decreases s1.len(),
{
    let c = compose_subst(s1, s2);
    if s1.len() == 0 {
        assert(c =~= s2);
    } else {
        assert(c[0] == (s1[0].0, apply_ty(s2, s1[0].1)->Ok_0));
        if s1[0].0 == v {
        } else {
            lemma_compose_lookup(s1.drop_first(), s2, v);
            assert(c.drop_first() =~= compose_subst(s1.drop_first(), s2));
        }
    }
}

/// Splitting a factor run splits its application.
pub proof fn lemma_apply_dtype_factor_seq_concat(
    s: Seq<(TypeVariable, SpecType)>,
    a: Seq<SpecDTypeFactor>,
    b: Seq<SpecDTypeFactor>,
)
    ensures
        apply_dtype_factor_seq(s, a + b) == (match apply_dtype_factor_seq(s, a) {
            Result::<Seq<SpecDTypeFactor>, SpecType>::Err(e) => Result::<
                Seq<SpecDTypeFactor>,
                SpecType,
            >::Err(e),
            Result::<Seq<SpecDTypeFactor>, SpecType>::Ok(ra) => match apply_dtype_factor_seq(
                s,
                b,
            ) {
                Result::<Seq<SpecDTypeFactor>, SpecType>::Err(e) => Result::<
                    Seq<SpecDTypeFactor>,
                    SpecType,
                >::Err(e),
                Result::<Seq<SpecDTypeFactor>, SpecType>::Ok(rb) => Result::<
                    Seq<SpecDTypeFactor>,
                    SpecType,
                >::Ok(ra + rb),
            },
        }),
    decreases a.len(),
{
    if a.len() == 0 {
        assert(a + b =~= b);
        if apply_dtype_factor_seq(s, b) is Ok {
            let rb = apply_dtype_factor_seq(s, b)->Ok_0;
            assert(Seq::<SpecDTypeFactor>::empty() + rb =~= rb);
        }
    } else {
        assert((a + b)[0] == a[0]);
        assert((a + b).drop_first() =~= a.drop_first() + b);
        lemma_apply_dtype_factor_seq_concat(s, a.drop_first(), b);
        if apply_dtype_factor(s, a[0]) is Ok && apply_dtype_factor_seq(s, a.drop_first()) is Ok
            && apply_dtype_factor_seq(s, b) is Ok {
            let r0 = apply_dtype_factor(s, a[0])->Ok_0;
            let ra = apply_dtype_factor_seq(s, a.drop_first())->Ok_0;
            let rb = apply_dtype_factor_seq(s, b)->Ok_0;
            assert(r0 + (ra + rb) =~= (r0 + ra) + rb);
        }
    }
}

/// Composition at one dimension-type factor: when the first substitution
/// succeeds, applying the composition equals applying the second
/// substitution to the first's result; when it fails, the composition fails.
pub proof fn lemma_compose_dtype_factor(
    s1: Seq<(TypeVariable, SpecType)>,
    s2: Seq<(TypeVariable, SpecType)>,
    f: SpecDTypeFactor,
)
    requires
        forall|i: int| 0 <= i < s1.len() ==> apply_ty(s2, #[trigger] s1[i].1) is Ok,
    ensures
        (match apply_dtype_factor(s1, f) {
            Result::Ok(fs) => apply_dtype_factor(compose_subst(s1, s2), f)
                == apply_dtype_factor_seq(s2, fs),
            Result::Err(_) => apply_dtype_factor(compose_subst(s1, s2), f) is Err,
        }),
{
    let c = compose_subst(s1, s2);
    match f {
        SpecDTypeFactor::BaseDimension(name, exponent) => {
            assert(seq![f].drop_first() =~= Seq::<SpecDTypeFactor>::empty());
            assert(apply_dtype_factor_seq(s2, Seq::<SpecDTypeFactor>::empty()) == Result::<
                Seq<SpecDTypeFactor>,
                SpecType,
            >::Ok(Seq::<SpecDTypeFactor>::empty()));
            assert(apply_dtype_factor_seq(s2, seq![f]) == Result::<
                Seq<SpecDTypeFactor>,
                SpecType,
            >::Ok(seq![f] + Seq::<SpecDTypeFactor>::empty()));
            assert(seq![f] + Seq::<SpecDTypeFactor>::empty() =~= seq![f]);
        },
        SpecDTypeFactor::TVar(v) => {
            lemma_compose_lookup(s1, s2, v);
            lemma_lookup_in(s1, v);
            match spec_lookup(s1, v) {
                Option::None => {
                    match spec_lookup(s2, v) {
                        Option::None => {
                            lemma_singleton_var_seq(s2, v);
                        },
                        Option::Some(u) => {
                            lemma_singleton_var_seq(s2, v);
                        },
                    }
                },
                Option::Some(t1) => {
                    let iw = choose|iw: int| 0 <= iw < s1.len() && s1[iw] == (v, t1);
                    assert(apply_ty(s2, s1[iw].1) is Ok);
                    assert(apply_ty(s2, t1) is Ok);
                    let t1p = apply_ty(s2, t1)->Ok_0;
                    match t1 {
                        SpecType::TVar(w) => {
                            lemma_singleton_var_seq(s2, w);
                        },
                        SpecType::Dimension(d) => {
                            assert(apply_dtype(s2, d) is Ok);
                        },
                        _ => {
                            lemma_apply_ty_keeps_shape(s2, t1);
                        },
                    }
                },
            }
        },
    }
}

/// Applying a substitution to the singleton run of one variable factor.
proof fn lemma_singleton_var_seq(s: Seq<(TypeVariable, SpecType)>, v: TypeVariable)
    ensures
        apply_dtype_factor_seq(s, seq![SpecDTypeFactor::TVar(v)]) == (match apply_dtype_factor(
            s,
            SpecDTypeFactor::TVar(v),
        ) {
            Result::<Seq<SpecDTypeFactor>, SpecType>::Err(e) => Result::<
                Seq<SpecDTypeFactor>,
                SpecType,
            >::Err(e),
            Result::<Seq<SpecDTypeFactor>, SpecType>::Ok(fs) => Result::<
                Seq<SpecDTypeFactor>,
                SpecType,
            >::Ok(fs),
        }),
{
    let single = seq![SpecDTypeFactor::TVar(v)];
    assert(single.drop_first() =~= Seq::<SpecDTypeFactor>::empty());
    assert(apply_dtype_factor_seq(s, Seq::<SpecDTypeFactor>::empty()) == Result::<
        Seq<SpecDTypeFactor>,
        SpecType,
    >::Ok(Seq::<SpecDTypeFactor>::empty()));
    if apply_dtype_factor(s, SpecDTypeFactor::TVar(v)) is Ok {
        let fs = apply_dtype_factor(s, SpecDTypeFactor::TVar(v))->Ok_0;
        assert(fs + Seq::<SpecDTypeFactor>::empty() =~= fs);
    }
}

/// A type that is not a variable and not a dimension type keeps its shape
/// under application: it stays neither a variable nor a dimension type.
pub proof fn lemma_apply_ty_keeps_shape(s: Seq<(TypeVariable, SpecType)>, t: SpecType)
    requires
        !(t is TVar),
        !(t is Dimension),
        apply_ty(s, t) is Ok,
    ensures
        !(apply_ty(s, t)->Ok_0 is TVar),
        !(apply_ty(s, t)->Ok_0 is Dimension),
{
}

/// Composition at a run of dimension-type factors.
pub proof fn lemma_compose_dtype_factor_seq(
    s1: Seq<(TypeVariable, SpecType)>,
    s2: Seq<(TypeVariable, SpecType)>,
    fs: Seq<SpecDTypeFactor>,
)
    requires
        forall|i: int| 0 <= i < s1.len() ==> apply_ty(s2, #[trigger] s1[i].1) is Ok,
    ensures
        (match apply_dtype_factor_seq(s1, fs) {
            Result::Ok(gs) => apply_dtype_factor_seq(compose_subst(s1, s2), fs)
                == apply_dtype_factor_seq(s2, gs),
            Result::Err(_) => apply_dtype_factor_seq(compose_subst(s1, s2), fs) is Err,
        }),
    decreases fs.len(),
{
    let c = compose_subst(s1, s2);
    if fs.len() == 0 {
        assert(apply_dtype_factor_seq(s2, Seq::<SpecDTypeFactor>::empty()) == Result::<
            Seq<SpecDTypeFactor>,
            SpecType,
        >::Ok(Seq::<SpecDTypeFactor>::empty()));
    } else {
        lemma_compose_dtype_factor(s1, s2, fs[0]);
        lemma_compose_dtype_factor_seq(s1, s2, fs.drop_first());
        match apply_dtype_factor(s1, fs[0]) {
            Result::Err(_) => {},
            Result::Ok(g0) => {
                match apply_dtype_factor_seq(s1, fs.drop_first()) {
                    Result::Err(_) => {
                        if apply_dtype_factor(c, fs[0]) is Ok {
                        }
                    },
                    Result::Ok(grest) => {
                        lemma_apply_dtype_factor_seq_concat(s2, g0, grest);
                    },
                }
            },
        }
    }
}

/// Composition law at types: applying `compose_subst(s1, s2)` in one pass
/// behaves as applying `s1` and then `s2`; where the sequential application
/// fails, the one-pass application fails as well.
pub proof fn lemma_compose_ty(
    s1: Seq<(TypeVariable, SpecType)>,
    s2: Seq<(TypeVariable, SpecType)>,
    t: SpecType,
)
    requires
        forall|i: int| 0 <= i < s1.len() ==> apply_ty(s2, #[trigger] s1[i].1) is Ok,
    ensures
        (match apply_ty(s1, t) {
            Result::Ok(u) => apply_ty(compose_subst(s1, s2), t) == apply_ty(s2, u),
            Result::Err(_) => apply_ty(compose_subst(s1, s2), t) is Err,
        }),
    decreases t,
{
    let c = compose_subst(s1, s2);
    match t {
        SpecType::TVar(v) => {
            lemma_compose_lookup(s1, s2, v);
            lemma_lookup_in(s1, v);
            match spec_lookup(s1, v) {
                Option::Some(t1) => {
                    let iw = choose|iw: int| 0 <= iw < s1.len() && s1[iw] == (v, t1);
                    assert(apply_ty(s2, s1[iw].1) is Ok);
                    assert(apply_ty(s2, t1) is Ok);
                },
                Option::None => {},
            }
        },
        SpecType::Dimension(d) => {
            lemma_compose_dtype_factor_seq(s1, s2, d.factors);
            match apply_dtype_factor_seq(s1, d.factors) {
                Result::Err(_) => {
                    assert(apply_ty(s1, t) is Err);
                    assert(apply_dtype(s1, d) is Err);
                    assert(apply_dtype_factor_seq(c, d.factors) is Err);
                    assert(apply_dtype(c, d) is Err);
                },
                Result::Ok(gs) => {
                    let u_d = SpecDType { factors: gs };
                    assert(apply_dtype(s1, d) == Result::<SpecDType, SpecType>::Ok(u_d));
                    assert(apply_ty(s1, t) == Result::<SpecType, SpecType>::Ok(
                        SpecType::Dimension(u_d),
                    ));
                    assert(u_d.factors == gs);
                    assert(apply_dtype_factor_seq(c, d.factors) == apply_dtype_factor_seq(
                        s2,
                        gs,
                    ));
                    match apply_dtype_factor_seq(s2, gs) {
                        Result::Err(e) => {
                            assert(apply_dtype(c, d) is Err);
                            assert(apply_dtype(s2, u_d) is Err);
                        },
                        Result::Ok(hs) => {
                            assert(apply_dtype(c, d) == Result::<SpecDType, SpecType>::Ok(
                                SpecDType { factors: hs },
                            ));
                            assert(apply_dtype(s2, u_d) == Result::<SpecDType, SpecType>::Ok(
                                SpecDType { factors: hs },
                            ));
                        },
                    }
                },
            }
        },
        SpecType::Boolean => {},
        SpecType::String => {},
        SpecType::DateTime => {},
        SpecType::Fn(params, ret) => {
            lemma_compose_ty_seq(s1, s2, params);
            lemma_compose_ty(s1, s2, *ret);
            match (apply_ty_seq(s1, params), apply_ty(s1, *ret)) {
                (Result::Ok(ps), Result::Ok(r)) => {
                    let u = SpecType::Fn(ps, Box::new(r));
                    assert(apply_ty(s1, t) == Result::<SpecType, SpecType>::Ok(u));
                    assert(apply_ty_seq(c, params) == apply_ty_seq(s2, ps));
                    assert(apply_ty(c, *ret) == apply_ty(s2, r));
                    match (apply_ty_seq(s2, ps), apply_ty(s2, r)) {
                        (Result::Ok(ps2), Result::Ok(r2)) => {
                            assert(apply_ty(c, t) == Result::<SpecType, SpecType>::Ok(
                                SpecType::Fn(ps2, Box::new(r2)),
                            ));
                            assert(apply_ty(s2, u) == Result::<SpecType, SpecType>::Ok(
                                SpecType::Fn(ps2, Box::new(r2)),
                            ));
                        },
                        _ => {},
                    }
                },
                _ => {},
            }
        },
        SpecType::Struct(info) => {
            lemma_compose_field_seq(s1, s2, info.fields);
            match apply_field_seq(s1, info.fields) {
                Result::Err(_) => {
                    assert(apply_ty(s1, t) is Err);
                    assert(apply_struct_info(s1, info) is Err);
                    assert(apply_field_seq(c, info.fields) is Err);
                    assert(apply_struct_info(c, info) is Err);
                },
                Result::Ok(gs) => {
                    let u_info = SpecStructInfo { name: info.name, fields: gs };
                    assert(apply_struct_info(s1, info) == Result::<SpecStructInfo, SpecType>::Ok(
                        u_info,
                    ));
                    assert(apply_ty(s1, t) == Result::<SpecType, SpecType>::Ok(
                        SpecType::Struct(u_info),
                    ));
                    assert(u_info.fields == gs);
                    assert(apply_field_seq(c, info.fields) == apply_field_seq(s2, gs));
                    match apply_field_seq(s2, gs) {
                        Result::Err(e) => {
                            assert(apply_struct_info(c, info) is Err);
                            assert(apply_struct_info(s2, u_info) is Err);
                        },
                        Result::Ok(hs) => {
                            assert(apply_struct_info(c, info) == Result::<
                                SpecStructInfo,
                                SpecType,
                            >::Ok(SpecStructInfo { name: info.name, fields: hs }));
                            assert(apply_struct_info(s2, u_info) == Result::<
                                SpecStructInfo,
                                SpecType,
                            >::Ok(SpecStructInfo { name: info.name, fields: hs }));
                        },
                    }
                },
            }
        },
        SpecType::List(element) => {
            lemma_compose_ty(s1, s2, *element);
        },
    }
}

/// Composition law at sequences of types.
pub proof fn lemma_compose_ty_seq(
    s1: Seq<(TypeVariable, SpecType)>,
    s2: Seq<(TypeVariable, SpecType)>,
    ts: Seq<SpecType>,
)
    requires
        forall|i: int| 0 <= i < s1.len() ==> apply_ty(s2, #[trigger] s1[i].1) is Ok,
    ensures
        (match apply_ty_seq(s1, ts) {
            Result::Ok(us) => apply_ty_seq(compose_subst(s1, s2), ts) == apply_ty_seq(s2, us),
            Result::Err(_) => apply_ty_seq(compose_subst(s1, s2), ts) is Err,
        }),
    decreases ts,
{
    let c = compose_subst(s1, s2);
    if ts.len() == 0 {
    } else {
        lemma_compose_ty(s1, s2, ts[0]);
        lemma_compose_ty_seq(s1, s2, ts.drop_first());
        match (apply_ty(s1, ts[0]), apply_ty_seq(s1, ts.drop_first())) {
            (Result::Ok(u0), Result::Ok(us)) => {
                let full = seq![u0] + us;
                assert(full[0] == u0);
                assert(full.drop_first() =~= us);
            },
            _ => {},
        }
    }
}

/// Composition law at field lists.
pub proof fn lemma_compose_field_seq(
    s1: Seq<(TypeVariable, SpecType)>,
    s2: Seq<(TypeVariable, SpecType)>,
    fs: Seq<(Seq<char>, SpecType)>,
)
    requires
        forall|i: int| 0 <= i < s1.len() ==> apply_ty(s2, #[trigger] s1[i].1) is Ok,
    ensures
        (match apply_field_seq(s1, fs) {
            Result::Ok(gs) => apply_field_seq(compose_subst(s1, s2), fs) == apply_field_seq(
                s2,
                gs,
            ),
            Result::Err(_) => apply_field_seq(compose_subst(s1, s2), fs) is Err,
        }),
    decreases fs,
{
    let c = compose_subst(s1, s2);
    if fs.len() == 0 {
    } else {
        lemma_compose_ty(s1, s2, fs[0].1);
        lemma_compose_field_seq(s1, s2, fs.drop_first());
        match (apply_ty(s1, fs[0].1), apply_field_seq(s1, fs.drop_first())) {
            (Result::Ok(u0), Result::Ok(gs)) => {
                let full = seq![(fs[0].0, u0)] + gs;
                assert(full[0] == (fs[0].0, u0));
                assert(full.drop_first() =~= gs);
            },
            _ => {},
        }
    }
}

/// Whether no type variable occurring in `t` is bound by `s`.
pub open spec fn ty_vars_unbound(s: Seq<(TypeVariable, SpecType)>, t: SpecType) -> bool
    decreases t,
{
    match t {
        SpecType::TVar(v) => spec_lookup(s, v) is None,
        SpecType::Dimension(d) => dfactor_vars_unbound(s, d.factors),
        SpecType::Boolean => true,
        SpecType::String => true,
        SpecType::DateTime => true,
        SpecType::Fn(params, ret) => ty_seq_vars_unbound(s, params) && ty_vars_unbound(s, *ret),
        SpecType::Struct(info) => field_vars_unbound(s, info.fields),
        SpecType::List(element) => ty_vars_unbound(s, *element),
    }
}

pub open spec fn ty_seq_vars_unbound(s: Seq<(TypeVariable, SpecType)>, ts: Seq<SpecType>) -> bool
    decreases ts,
{
    if ts.len() == 0 {
        true
    } else {
        ty_vars_unbound(s, ts[0]) && ty_seq_vars_unbound(s, ts.drop_first())
    }
}

pub open spec fn field_vars_unbound(
    s: Seq<(TypeVariable, SpecType)>,
    fs: Seq<(Seq<char>, SpecType)>,
) -> bool
    decreases fs,
{
    if fs.len() == 0 {
        true
    } else {
        ty_vars_unbound(s, fs[0].1) && field_vars_unbound(s, fs.drop_first())
    }
}

pub open spec fn dfactor_vars_unbound(
    s: Seq<(TypeVariable, SpecType)>,
    fs: Seq<SpecDTypeFactor>,
) -> bool
    decreases fs.len(),
{
    if fs.len() == 0 {
        true
    } else {
        (match fs[0] {
            SpecDTypeFactor::BaseDimension(_, _) => true,
            SpecDTypeFactor::TVar(v) => spec_lookup(s, v) is None,
        }) && dfactor_vars_unbound(s, fs.drop_first())
    }
}

/// Idempotence: applying a substitution to a type that contains no variable
/// bound by it is a no-op.
pub proof fn lemma_apply_ty_unbound(s: Seq<(TypeVariable, SpecType)>, t: SpecType)
    requires
        ty_vars_unbound(s, t),
    ensures
        apply_ty(s, t) == Result::<SpecType, SpecType>::Ok(t),
    decreases t,
{
    match t {
        SpecType::TVar(v) => {
            assert(apply_ty(s, t) == Result::<SpecType, SpecType>::Ok(t));
        },
        SpecType::Dimension(d) => {
            lemma_apply_dfactor_seq_unbound(s, d.factors);
            assert(SpecDType { factors: d.factors } =~= d);
        },
        SpecType::Boolean => {},
        SpecType::String => {},
        SpecType::DateTime => {},
        SpecType::Fn(params, ret) => {
            lemma_apply_ty_seq_unbound(s, params);
            lemma_apply_ty_unbound(s, *ret);
            assert(SpecType::Fn(params, Box::new(*ret)) =~= t);
        },
        SpecType::Struct(info) => {
            lemma_apply_field_seq_unbound(s, info.fields);
            assert(SpecStructInfo { name: info.name, fields: info.fields } =~= info);
            assert(apply_struct_info(s, info) == Result::<SpecStructInfo, SpecType>::Ok(info));
        },
        SpecType::List(element) => {
            lemma_apply_ty_unbound(s, *element);
            assert(SpecType::List(Box::new(*element)) =~= t);
        },
    }
}

pub proof fn lemma_apply_ty_seq_unbound(s: Seq<(TypeVariable, SpecType)>, ts: Seq<SpecType>)
    requires
        ty_seq_vars_unbound(s, ts),
    ensures
        apply_ty_seq(s, ts) == Result::<Seq<SpecType>, SpecType>::Ok(ts),
    decreases ts,
{
    if ts.len() == 0 {
        assert(ts =~= Seq::<SpecType>::empty());
    } else {
        lemma_apply_ty_unbound(s, ts[0]);
        lemma_apply_ty_seq_unbound(s, ts.drop_first());
        assert(seq![ts[0]] + ts.drop_first() =~= ts);
    }
}

pub proof fn lemma_apply_field_seq_unbound(
    s: Seq<(TypeVariable, SpecType)>,
    fs: Seq<(Seq<char>, SpecType)>,
)
    requires
        field_vars_unbound(s, fs),
    ensures
        apply_field_seq(s, fs) == Result::<Seq<(Seq<char>, SpecType)>, SpecType>::Ok(fs),
    decreases fs,
{
    if fs.len() == 0 {
        assert(fs =~= Seq::<(Seq<char>, SpecType)>::empty());
    } else {
        lemma_apply_ty_unbound(s, fs[0].1);
        lemma_apply_field_seq_unbound(s, fs.drop_first());
        assert((fs[0].0, fs[0].1) == fs[0]);
        assert(seq![fs[0]] + fs.drop_first() =~= fs);
    }
}

pub proof fn lemma_apply_dfactor_seq_unbound(
    s: Seq<(TypeVariable, SpecType)>,
    fs: Seq<SpecDTypeFactor>,
)
    requires
        dfactor_vars_unbound(s, fs),
    ensures
        apply_dtype_factor_seq(s, fs) == Result::<Seq<SpecDTypeFactor>, SpecType>::Ok(fs),
    decreases fs.len(),
{
    if fs.len() == 0 {
        assert(fs =~= Seq::<SpecDTypeFactor>::empty());
    } else {
        lemma_apply_dfactor_seq_unbound(s, fs.drop_first());
        match fs[0] {
            SpecDTypeFactor::BaseDimension(name, exponent) => {
                assert(apply_dtype_factor(s, fs[0]) == Result::<
                    Seq<SpecDTypeFactor>,
                    SpecType,
                >::Ok(seq![fs[0]]));
            },
            SpecDTypeFactor::TVar(v) => {
                assert(apply_dtype_factor(s, fs[0]) == Result::<
                    Seq<SpecDTypeFactor>,
                    SpecType,
                >::Ok(seq![fs[0]]));
            },
        }
        assert(seq![fs[0]] + fs.drop_first() =~= fs);
    }
}

/// Whether no type variable occurring in `e` is bound by `s`.
pub open spec fn expr_vars_unbound(s: Seq<(TypeVariable, SpecType)>, e: SpecExpression) -> bool
    decreases e,
{
    match e {
        SpecExpression::Scalar(_, t) => ty_vars_unbound(s, t),
        SpecExpression::Identifier(_, t) => ty_vars_unbound(s, t),
        SpecExpression::UnitIdentifier(_, t) => ty_vars_unbound(s, t),
        SpecExpression::UnaryOperator(operand, t) => expr_vars_unbound(s, *operand)
            && ty_vars_unbound(s, t),
        SpecExpression::BinaryOperator(lhs, rhs, t) => expr_vars_unbound(s, *lhs)
            && expr_vars_unbound(s, *rhs) && ty_vars_unbound(s, t),
        SpecExpression::BinaryOperatorForDate(lhs, rhs, t) => expr_vars_unbound(s, *lhs)
            && expr_vars_unbound(s, *rhs) && ty_vars_unbound(s, t),
        SpecExpression::FunctionCall(_, args, t) => expr_seq_vars_unbound(s, args)
            && ty_vars_unbound(s, t),
        SpecExpression::CallableCall(callable, args, t) => expr_vars_unbound(s, *callable)
            && expr_seq_vars_unbound(s, args) && ty_vars_unbound(s, t),
        SpecExpression::Boolean(_) => true,
        SpecExpression::Condition(cond, th, el) => expr_vars_unbound(s, *cond)
            && expr_vars_unbound(s, *th) && expr_vars_unbound(s, *el),
        SpecExpression::String(_) => true,
        SpecExpression::InstantiateStruct(inits, info) => init_vars_unbound(s, inits)
            && field_vars_unbound(s, info.fields),
        SpecExpression::AccessField(instance, _, info, t) => expr_vars_unbound(s, *instance)
            && field_vars_unbound(s, info.fields) && ty_vars_unbound(s, t),
        SpecExpression::List(elements, t) => expr_seq_vars_unbound(s, elements)
            && ty_vars_unbound(s, t),
    }
}

pub open spec fn expr_seq_vars_unbound(
    s: Seq<(TypeVariable, SpecType)>,
    es: Seq<SpecExpression>,
) -> bool
    decreases es,
{
    if es.len() == 0 {
        true
    } else {
        expr_vars_unbound(s, es[0]) && expr_seq_vars_unbound(s, es.drop_first())
    }
}

pub open spec fn init_vars_unbound(
    s: Seq<(TypeVariable, SpecType)>,
    inits: Seq<(Seq<char>, SpecExpression)>,
) -> bool
    decreases inits,
{
    if inits.len() == 0 {
        true
    } else {
        expr_vars_unbound(s, inits[0].1) && init_vars_unbound(s, inits.drop_first())
    }
}

/// Whether no type variable occurring in `st` is bound by `s`.
pub open spec fn stmt_vars_unbound(s: Seq<(TypeVariable, SpecType)>, st: SpecStatement) -> bool {
    match st {
        SpecStatement::Expression(e) => expr_vars_unbound(s, e),
        SpecStatement::DefineVariable(_, e, t) => expr_vars_unbound(s, e) && ty_vars_unbound(s, t),
        SpecStatement::DefineFunction(_, parameters, body, return_type) => field_vars_unbound(
            s,
            parameters,
        ) && (match body {
            Option::Some(b) => expr_vars_unbound(s, b),
            Option::None => true,
        }) && ty_vars_unbound(s, return_type),
        SpecStatement::DefineDimension(_) => true,
        SpecStatement::DefineBaseUnit(_, t) => ty_vars_unbound(s, t),
        SpecStatement::DefineDerivedUnit(_, e, t) => expr_vars_unbound(s, e) && ty_vars_unbound(
            s,
            t,
        ),
        SpecStatement::ProcedureCall(args) => expr_seq_vars_unbound(s, args),
        SpecStatement::DefineStruct(info) => field_vars_unbound(s, info.fields),
    }
}

/// Idempotence at struct metadata.
pub proof fn lemma_apply_struct_info_unbound(
    s: Seq<(TypeVariable, SpecType)>,
    info: SpecStructInfo,
)
    requires
        field_vars_unbound(s, info.fields),
    ensures
        apply_struct_info(s, info) == Result::<SpecStructInfo, SpecType>::Ok(info),
{
    lemma_apply_field_seq_unbound(s, info.fields);
    assert(SpecStructInfo { name: info.name, fields: info.fields } =~= info);
    assert(apply_struct_info(s, info) == Result::<SpecStructInfo, SpecType>::Ok(info));
}

/// Idempotence: applying a substitution to an expression that contains no
/// variable bound by it is a no-op.
pub proof fn lemma_apply_expr_unbound(s: Seq<(TypeVariable, SpecType)>, e: SpecExpression)
    requires
        expr_vars_unbound(s, e),
    ensures
        apply_expr(s, e) == Result::<SpecExpression, SpecType>::Ok(e),
    decreases e,
{
    match e {
        SpecExpression::Scalar(value, t) => {
            lemma_apply_ty_unbound(s, t);
            assert(SpecExpression::Scalar(value, t) =~= e);
        },
        SpecExpression::Identifier(name, t) => {
            lemma_apply_ty_unbound(s, t);
            assert(SpecExpression::Identifier(name, t) =~= e);
        },
        SpecExpression::UnitIdentifier(name, t) => {
            lemma_apply_ty_unbound(s, t);
            assert(SpecExpression::UnitIdentifier(name, t) =~= e);
        },
        SpecExpression::UnaryOperator(operand, t) => {
            lemma_apply_expr_unbound(s, *operand);
            lemma_apply_ty_unbound(s, t);
            assert(SpecExpression::UnaryOperator(Box::new(*operand), t) =~= e);
        },
        SpecExpression::BinaryOperator(lhs, rhs, t) => {
            lemma_apply_expr_unbound(s, *lhs);
            lemma_apply_expr_unbound(s, *rhs);
            lemma_apply_ty_unbound(s, t);
            assert(SpecExpression::BinaryOperator(Box::new(*lhs), Box::new(*rhs), t) =~= e);
        },
        SpecExpression::BinaryOperatorForDate(lhs, rhs, t) => {
            lemma_apply_expr_unbound(s, *lhs);
            lemma_apply_expr_unbound(s, *rhs);
            lemma_apply_ty_unbound(s, t);
            assert(SpecExpression::BinaryOperatorForDate(Box::new(*lhs), Box::new(*rhs), t)
                =~= e);
        },
        SpecExpression::FunctionCall(name, args, t) => {
            lemma_apply_expr_seq_unbound(s, args);
            lemma_apply_ty_unbound(s, t);
            assert(SpecExpression::FunctionCall(name, args, t) =~= e);
        },
        SpecExpression::CallableCall(callable, args, t) => {
            lemma_apply_expr_unbound(s, *callable);
            lemma_apply_expr_seq_unbound(s, args);
            lemma_apply_ty_unbound(s, t);
            assert(SpecExpression::CallableCall(Box::new(*callable), args, t) =~= e);
        },
        SpecExpression::Boolean(_) => {},
        SpecExpression::Condition(cond, th, el) => {
            lemma_apply_expr_unbound(s, *cond);
            lemma_apply_expr_unbound(s, *th);
            lemma_apply_expr_unbound(s, *el);
            assert(SpecExpression::Condition(Box::new(*cond), Box::new(*th), Box::new(*el))
                =~= e);
        },
        SpecExpression::String(_) => {},
        SpecExpression::InstantiateStruct(inits, info) => {
            lemma_apply_init_seq_unbound(s, inits);
            lemma_apply_struct_info_unbound(s, info);
            assert(SpecExpression::InstantiateStruct(inits, info) =~= e);
        },
        SpecExpression::AccessField(instance, field, info, t) => {
            lemma_apply_expr_unbound(s, *instance);
            lemma_apply_struct_info_unbound(s, info);
            lemma_apply_ty_unbound(s, t);
            assert(SpecExpression::AccessField(Box::new(*instance), field, info, t) =~= e);
        },
        SpecExpression::List(elements, t) => {
            lemma_apply_expr_seq_unbound(s, elements);
            lemma_apply_ty_unbound(s, t);
            assert(SpecExpression::List(elements, t) =~= e);
        },
    }
}

pub proof fn lemma_apply_expr_seq_unbound(
    s: Seq<(TypeVariable, SpecType)>,
    es: Seq<SpecExpression>,
)
    requires
        expr_seq_vars_unbound(s, es),
    ensures
        apply_expr_seq(s, es) == Result::<Seq<SpecExpression>, SpecType>::Ok(es),
    decreases es,
{
    if es.len() == 0 {
        assert(es =~= Seq::<SpecExpression>::empty());
    } else {
        lemma_apply_expr_unbound(s, es[0]);
        lemma_apply_expr_seq_unbound(s, es.drop_first());
        assert(seq![es[0]] + es.drop_first() =~= es);
    }
}

pub proof fn lemma_apply_init_seq_unbound(
    s: Seq<(TypeVariable, SpecType)>,
    inits: Seq<(Seq<char>, SpecExpression)>,
)
    requires
        init_vars_unbound(s, inits),
    ensures
        apply_init_seq(s, inits) == Result::<Seq<(Seq<char>, SpecExpression)>, SpecType>::Ok(
            inits,
        ),
    decreases inits,
{
    if inits.len() == 0 {
        assert(inits =~= Seq::<(Seq<char>, SpecExpression)>::empty());
    } else {
        lemma_apply_expr_unbound(s, inits[0].1);
        lemma_apply_init_seq_unbound(s, inits.drop_first());
        assert((inits[0].0, inits[0].1) == inits[0]);
        assert(seq![inits[0]] + inits.drop_first() =~= inits);
    }
}

/// Idempotence: applying a substitution to a statement that contains no
/// variable bound by it is a no-op.
pub proof fn lemma_apply_stmt_unbound(s: Seq<(TypeVariable, SpecType)>, st: SpecStatement)
    requires
        stmt_vars_unbound(s, st),
    ensures
        apply_stmt(s, st) == Result::<SpecStatement, SpecType>::Ok(st),
{
    match st {
        SpecStatement::Expression(e) => {
            lemma_apply_expr_unbound(s, e);
        },
        SpecStatement::DefineVariable(name, e, t) => {
            lemma_apply_expr_unbound(s, e);
            lemma_apply_ty_unbound(s, t);
            assert(SpecStatement::DefineVariable(name, e, t) =~= st);
        },
        SpecStatement::DefineFunction(name, parameters, body, return_type) => {
            lemma_apply_field_seq_unbound(s, parameters);
            match body {
                Option::Some(b) => {
                    lemma_apply_expr_unbound(s, b);
                },
                Option::None => {},
            }
            lemma_apply_ty_unbound(s, return_type);
            assert(SpecStatement::DefineFunction(name, parameters, body, return_type) =~= st);
        },
        SpecStatement::DefineDimension(_) => {},
        SpecStatement::DefineBaseUnit(name, t) => {
            lemma_apply_ty_unbound(s, t);
            assert(SpecStatement::DefineBaseUnit(name, t) =~= st);
        },
        SpecStatement::DefineDerivedUnit(name, e, t) => {
            lemma_apply_expr_unbound(s, e);
            lemma_apply_ty_unbound(s, t);
            assert(SpecStatement::DefineDerivedUnit(name, e, t) =~= st);
        },
        SpecStatement::ProcedureCall(args) => {
            lemma_apply_expr_seq_unbound(s, args);
            assert(SpecStatement::ProcedureCall(args) =~= st);
        },
        SpecStatement::DefineStruct(info) => {
            lemma_apply_struct_info_unbound(s, info);
        },
    }
}

/// After `single(v, t)`, `v` resolves to `t` and every other variable is
/// unbound.
pub proof fn lemma_single_lookup(v: TypeVariable, t: SpecType, w: TypeVariable)
    ensures
        spec_lookup(seq![(v, t)], v) == Option::Some(t),
        w != v ==> spec_lookup(seq![(v, t)], w) is None,
{
    assert(seq![(v, t)].drop_first() =~= Seq::<(TypeVariable, SpecType)>::empty());
    assert(spec_lookup(Seq::<(TypeVariable, SpecType)>::empty(), w) is None);
}

} // verus!

