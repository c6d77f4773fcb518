//! The statement and expression shapes that specifier extraction walks.
//!
//! A parsed module is a sequence of `Stmt` values; the surrounding
//! application lowers the syntax tree produced by the JavaScript parser
//! into this closed set of variants. Expression forms the search does not
//! descend into are lowered to `Expr::Opaque`, which stops recursion.

use vstd::prelude::*;
use crate::types::{SpecKind, SpecifierModel};

verus! {

/// One binding introduced by a static import declaration.
pub enum ImportBinding {
    /// A named import, possibly marked `type`.
    Named { type_only: bool },
    /// A default import.
    Default,
    /// A namespace (`* as x`) import.
    Namespace,
}

/// An expression, restricted to the shapes the `require`/`import()` search
/// distinguishes.
pub enum Expr {
    /// A call. `arguments` keeps every argument position; one that is not
    /// a plain expression (a spread, for instance) appears as `Opaque`.
    Call { callee: Box<Expr>, arguments: Vec<Expr> },
    /// A dynamic `import(source)` expression.
    DynImport { source: Box<Expr> },
    StrLit(String),
    Ident(String),
    /// Expression elements of an array literal.
    Array(Vec<Expr>),
    /// Property values of an object literal.
    Object(Vec<Expr>),
    Conditional { test: Box<Expr>, consequent: Box<Expr>, alternate: Box<Expr> },
    /// An assignment; only the right-hand side is searched.
    Assign { right: Box<Expr> },
    Paren(Box<Expr>),
    /// Any other expression form: a leaf that stops recursion.
    Opaque,
}

/// A top-level statement, restricted to the shapes extraction reads.
pub enum Stmt {
    /// A static import declaration with its binding list (`None` for a
    /// bare side-effect import) and source string.
    Import { type_only: bool, bindings: Option<Vec<ImportBinding>>, source: String },
    /// A top-level expression statement.
    Expr(Expr),
    /// The initializers of a variable declaration, in order, for the
    /// declarators that have one.
    VarDecl(Vec<Expr>),
    /// Any other statement: contributes nothing.
    Other,
}

/// A binding that keeps the import alive at runtime: anything but a
/// type-only named import.
pub open spec fn spec_binding_runtime(b: ImportBinding) -> bool {
    match b {
        ImportBinding::Named { type_only } => !type_only,
        ImportBinding::Default => true,
        ImportBinding::Namespace => true,
    }
}

/// Whether a static import declaration contributes its source: it must not
/// be declaration-level type-only, and must either bind nothing (a pure
/// side-effect import) or bind at least one runtime binding.
pub open spec fn spec_import_included(type_only: bool, bindings: Option<Vec<ImportBinding>>) -> bool {
    &&& !type_only
    &&& match bindings {
        Some(bs) => exists|i: int| 0 <= i < bs@.len() && spec_binding_runtime(bs@[i]),
        None => true,
    }
}

/// The specifiers contributed by a `require("...")` head match of a call:
/// one static specifier when the callee is the identifier `require` and the
/// first argument is a string literal.
pub open spec fn spec_require_head(callee: Expr, arguments: Seq<Expr>) -> Seq<SpecifierModel> {
    match callee {
        Expr::Ident(name) => {
            if name@ == "require"@ && arguments.len() > 0 {
                match arguments[0] {
                    Expr::StrLit(s) => seq![
                        SpecifierModel { request: s@, kind: SpecKind::Static },
                    ],
                    _ => Seq::empty(),
                }
            } else {
                Seq::empty()
            }
        },
        _ => Seq::empty(),
    }
}

/// The specifiers found inside one expression, in encounter order.
pub open spec fn spec_expr_specs(e: Expr) -> Seq<SpecifierModel>
    decreases e,
{
    match e {
        Expr::Call { callee, arguments } => spec_require_head(*callee, arguments@)
            + spec_exprs_specs(arguments@) + spec_expr_specs(*callee),
        Expr::DynImport { source } => match *source {
            Expr::StrLit(s) => seq![SpecifierModel { request: s@, kind: SpecKind::Dynamic }],
            _ => Seq::empty(),
        },
        Expr::Array(elems) => spec_exprs_specs(elems@),
        Expr::Object(values) => spec_exprs_specs(values@),
        Expr::Conditional { test, consequent, alternate } => spec_expr_specs(*test)
            + spec_expr_specs(*consequent) + spec_expr_specs(*alternate),
        Expr::Assign { right } => spec_expr_specs(*right),
        Expr::Paren(inner) => spec_expr_specs(*inner),
        _ => Seq::empty(),
    }
}

/// The specifiers found inside a list of expressions, concatenated in order.
pub open spec fn spec_exprs_specs(es: Seq<Expr>) -> Seq<SpecifierModel>
    decreases es,
{
    if es.len() == 0 {
        Seq::empty()
    } else {
        spec_expr_specs(es[0]) + spec_exprs_specs(es.drop_first())
    }
}

/// The specifiers contributed by one statement.
pub open spec fn spec_stmt_specs(s: Stmt) -> Seq<SpecifierModel> {
    match s {
        Stmt::Import { type_only, bindings, source } => {
            if spec_import_included(type_only, bindings) {
                seq![SpecifierModel { request: source@, kind: SpecKind::Static }]
            } else {
                Seq::empty()
            }
        },
        Stmt::Expr(e) => spec_expr_specs(e),
        Stmt::VarDecl(inits) => spec_exprs_specs(inits@),
        Stmt::Other => Seq::empty(),
    }
}

/// The specifiers of a whole parsed module, statement by statement.
pub open spec fn spec_program_specs(ss: Seq<Stmt>) -> Seq<SpecifierModel>
    decreases ss,
{
    if ss.len() == 0 {
        Seq::empty()
    } else {
        spec_stmt_specs(ss[0]) + spec_program_specs(ss.drop_first())
    }
}

pub proof fn lemma_exprs_specs_snoc(es: Seq<Expr>, i: int)
    requires
        0 <= i < es.len(),
    ensures
        spec_exprs_specs(es.take(i + 1)) == spec_exprs_specs(es.take(i)) + spec_expr_specs(es[i]),
    decreases i,
{
    if i == 0 {
        assert(es.take(1).drop_first() =~= Seq::<Expr>::empty());
        assert(es.take(1)[0] == es[0]);
        assert(es.take(0) =~= Seq::<Expr>::empty());
        assert(spec_exprs_specs(Seq::<Expr>::empty()) == Seq::<SpecifierModel>::empty());
        assert(spec_exprs_specs(es.take(1)) == spec_expr_specs(es[0]) + Seq::<
            SpecifierModel,
        >::empty());
        assert(spec_expr_specs(es[0]) + Seq::<SpecifierModel>::empty() =~= spec_expr_specs(es[0]));
        assert(Seq::<SpecifierModel>::empty() + spec_expr_specs(es[0]) =~= spec_expr_specs(es[0]));
    } else {
        lemma_exprs_specs_snoc(es.drop_first(), i - 1);
        assert(es.take(i + 1).drop_first() =~= es.drop_first().take(i));
        assert(es.take(i).drop_first() =~= es.drop_first().take(i - 1));
        assert(es.take(i + 1)[0] == es[0]);
        assert(es.take(i)[0] == es[0]);
        assert(es.drop_first()[i - 1] == es[i]);
        assert(spec_expr_specs(es[0]) + (spec_exprs_specs(es.drop_first().take(i - 1))
            + spec_expr_specs(es[i])) =~= (spec_expr_specs(es[0]) + spec_exprs_specs(
            es.drop_first().take(i - 1),
        )) + spec_expr_specs(es[i]));
    }
}

pub proof fn lemma_program_specs_snoc(ss: Seq<Stmt>, i: int)
    requires
        0 <= i < ss.len(),
    ensures
        spec_program_specs(ss.take(i + 1)) == spec_program_specs(ss.take(i)) + spec_stmt_specs(
            ss[i],
        ),
    decreases i,
{
    if i == 0 {
        assert(ss.take(1).drop_first() =~= Seq::<Stmt>::empty());
        assert(ss.take(1)[0] == ss[0]);
        assert(ss.take(0) =~= Seq::<Stmt>::empty());
        assert(spec_program_specs(Seq::<Stmt>::empty()) == Seq::<SpecifierModel>::empty());
        assert(spec_program_specs(ss.take(1)) == spec_stmt_specs(ss[0]) + Seq::<
            SpecifierModel,
        >::empty());
        assert(spec_stmt_specs(ss[0]) + Seq::<SpecifierModel>::empty() =~= spec_stmt_specs(ss[0]));
        assert(Seq::<SpecifierModel>::empty() + spec_stmt_specs(ss[0]) =~= spec_stmt_specs(ss[0]));
    } else {
        lemma_program_specs_snoc(ss.drop_first(), i - 1);
        assert(ss.take(i + 1).drop_first() =~= ss.drop_first().take(i));
        assert(ss.take(i).drop_first() =~= ss.drop_first().take(i - 1));
        assert(ss.take(i + 1)[0] == ss[0]);
        assert(ss.take(i)[0] == ss[0]);
        assert(ss.drop_first()[i - 1] == ss[i]);
        assert(spec_stmt_specs(ss[0]) + (spec_program_specs(ss.drop_first().take(i - 1))
            + spec_stmt_specs(ss[i])) =~= (spec_stmt_specs(ss[0]) + spec_program_specs(
            ss.drop_first().take(i - 1),
        )) + spec_stmt_specs(ss[i]));
    }
}

} // verus!
