//! Specifier extraction from parsed modules, with the shared per-file memo.

use vstd::prelude::*;
use crate::ast::{
    Expr, ImportBinding, Stmt, lemma_exprs_specs_snoc, lemma_program_specs_snoc,
    spec_binding_runtime, spec_expr_specs, spec_exprs_specs, spec_program_specs,
    spec_require_head, spec_stmt_specs,
};
use crate::caches::{ImportCache, import_cache_view};
use crate::strutil::str_eq;
use crate::types::{SpecKind, Specifier, SpecifierModel};

verus! {

/// The parsed modules handed to a run: file path to statement list, in the
/// order the surrounding application read them. A file that could not be
/// read or parsed has no entry.
pub struct SourceStore {
    pub modules: Vec<(String, Vec<Stmt>)>,
}

/// First statement list recorded for file `k`, if any.
pub open spec fn spec_module_lookup(s: Seq<(String, Vec<Stmt>)>, k: Seq<char>) -> Option<Vec<Stmt>>
    decreases s.len(),
{
    if s.len() == 0 {
        None
    } else if s[0].0@ == k {
        Some(s[0].1)
    } else {
        spec_module_lookup(s.drop_first(), k)
    }
}

/// The specifiers of `file` under this store: the extraction of its parsed
/// statements, or nothing for an unreadable file.
pub open spec fn spec_imports(store: SourceStore, file: Seq<char>) -> Option<Seq<SpecifierModel>> {
    match spec_module_lookup(store.modules@, file) {
        Some(program) => Some(spec_program_specs(program@)),
        None => None,
    }
}

impl SourceStore {
    pub fn new() -> (r: SourceStore)
        ensures
            r.modules@ == Seq::<(String, Vec<Stmt>)>::empty(),
    {
        SourceStore { modules: Vec::new() }
    }

    pub fn add_module(&mut self, file: String, program: Vec<Stmt>)
        ensures
            final(self).modules@ == old(self).modules@.push((file, program)),
    {
        self.modules.push((file, program));
    }

    pub fn get_module<'a>(&'a self, file: &str) -> (r: Option<&'a Vec<Stmt>>)
        ensures
            match r {
                Some(p) => spec_module_lookup(self.modules@, file@) == Some(*p),
                None => spec_module_lookup(self.modules@, file@) is None,
            },
    {
        let n = self.modules.len();
        let mut i: usize = 0;
        proof {
            assert(self.modules@.skip(0) =~= self.modules@);
        }
        while i < n
            invariant
                0 <= i <= n,
                n == self.modules@.len(),
                spec_module_lookup(self.modules@, file@) == spec_module_lookup(
                    self.modules@.skip(i as int),
                    file@,
                ),
            decreases n - i,
        {
            let entry = &self.modules[i];
            proof {
                assert(self.modules@.skip(i as int)[0] == self.modules@[i as int]);
            }
            if str_eq(entry.0.as_str(), file) {
                return Some(&entry.1);
            }
            proof {
                assert(self.modules@.skip(i as int).drop_first() =~= self.modules@.skip(i + 1));
            }
            i += 1;
        }
        proof {
            assert(self.modules@.skip(n as int) =~= Seq::<(String, Vec<Stmt>)>::empty());
        }
        None
    }
}

/// Appends to `specs` every `require("...")` and `import("...")` specifier
/// found inside `expr`, in encounter order.
pub fn extract_require_from_expression(expr: &Expr, specs: &mut Vec<Specifier>)
    ensures
        final(specs).deep_view() == old(specs).deep_view() + spec_expr_specs(*expr),
    decreases *expr,
{
    let ghost base = specs.deep_view();
    match expr {
        Expr::Call { callee, arguments } => {
            if let Expr::Ident(name) = &**callee {
                if str_eq(name.as_str(), "require") && arguments.len() > 0 {
                    if let Expr::StrLit(s) = &arguments[0] {
                        specs.push(Specifier { request: s.clone(), kind: SpecKind::Static });
                    }
                }
            }
            proof {
                assert(specs.deep_view() =~= base + spec_require_head(**callee, arguments@));
            }
            let ghost with_head = specs.deep_view();
            let n = arguments.len();
            let mut i: usize = 0;
            proof {
                assert(arguments@.take(0) =~= Seq::<Expr>::empty());
                assert(specs.deep_view() =~= with_head + spec_exprs_specs(arguments@.take(0)));
            }
            #[verifier::loop_isolation(false)]
            while i < n
                invariant
                    0 <= i <= n,
                    n == arguments@.len(),
                    specs.deep_view() == with_head + spec_exprs_specs(arguments@.take(i as int)),
                decreases n - i,
            {
                extract_require_from_expression(&arguments[i], specs);
                proof {
                    lemma_exprs_specs_snoc(arguments@, i as int);
                    assert(specs.deep_view() =~= with_head + spec_exprs_specs(
                        arguments@.take(i + 1),
                    ));
                }
                i += 1;
            }
            proof {
                assert(arguments@.take(n as int) =~= arguments@);
            }
            extract_require_from_expression(callee, specs);
            proof {
                assert(specs.deep_view() =~= base + spec_expr_specs(*expr));
            }
        },
        Expr::DynImport { source } => {
            if let Expr::StrLit(s) = &**source {
                specs.push(Specifier { request: s.clone(), kind: SpecKind::Dynamic });
            }
            proof {
                assert(specs.deep_view() =~= base + spec_expr_specs(*expr));
            }
        },
        Expr::Array(elems) => {
            extract_from_list(elems, specs);
            proof {
                assert(specs.deep_view() =~= base + spec_expr_specs(*expr));
            }
        },
        Expr::Object(values) => {
            extract_from_list(values, specs);
            proof {
                assert(specs.deep_view() =~= base + spec_expr_specs(*expr));
            }
        },
        Expr::Conditional { test, consequent, alternate } => {
            extract_require_from_expression(test, specs);
            extract_require_from_expression(consequent, specs);
            extract_require_from_expression(alternate, specs);
            proof {
                assert(specs.deep_view() =~= base + spec_expr_specs(*expr));
            }
        },
        Expr::Assign { right } => {
            extract_require_from_expression(right, specs);
        },
        Expr::Paren(inner) => {
            extract_require_from_expression(inner, specs);
        },
        _ => {
            proof {
                assert(specs.deep_view() =~= base + spec_expr_specs(*expr));
            }
        },
    }
}

/// Appends the specifiers of each expression in the list, in order.
fn extract_from_list(es: &Vec<Expr>, specs: &mut Vec<Specifier>)
    ensures
        final(specs).deep_view() == old(specs).deep_view() + spec_exprs_specs(es@),
    decreases es@,
{
    let ghost base = specs.deep_view();
    let n = es.len();
    let mut i: usize = 0;
    proof {
        assert(es@.take(0) =~= Seq::<Expr>::empty());
        assert(specs.deep_view() =~= base + spec_exprs_specs(es@.take(0)));
    }
    #[verifier::loop_isolation(false)]
    while i < n
        invariant
            0 <= i <= n,
            n == es@.len(),
            specs.deep_view() == base + spec_exprs_specs(es@.take(i as int)),
        decreases n - i,
    {
        extract_require_from_expression(&es[i], specs);
        proof {
            lemma_exprs_specs_snoc(es@, i as int);
            assert(specs.deep_view() =~= base + spec_exprs_specs(es@.take(i + 1)));
        }
        i += 1;
    }
    proof {
        assert(es@.take(n as int) =~= es@);
    }
}

/// Whether any binding keeps the import alive at runtime.
fn has_runtime_binding(bs: &Vec<ImportBinding>) -> (b: bool)
    ensures
        b == exists|i: int| 0 <= i < bs@.len() && spec_binding_runtime(bs@[i]),
{
    let n = bs.len();
    let mut i: usize = 0;
    while i < n
        invariant
            0 <= i <= n,
            n == bs@.len(),
            forall|j: int| 0 <= j < i ==> !spec_binding_runtime(bs@[j]),
        decreases n - i,
    {
        let runtime = match &bs[i] {
            ImportBinding::Named { type_only } => !*type_only,
            ImportBinding::Default => true,
            ImportBinding::Namespace => true,
        };
        if runtime {
            return true;
        }
        i += 1;
    }
    false
}

/// The ordered specifier list of one parsed module: static imports that
/// survive the type-only rules, and every `require`/`import()` found in
/// top-level expressions and initializers.
pub fn extract_specifiers(program: &Vec<Stmt>) -> (r: Vec<Specifier>)
    ensures
        r.deep_view() == spec_program_specs(program@),
{
    let mut specs: Vec<Specifier> = Vec::new();
    let n = program.len();
    let mut i: usize = 0;
    proof {
        assert(program@.take(0) =~= Seq::<Stmt>::empty());
        assert(specs.deep_view() =~= spec_program_specs(program@.take(0)));
    }
    while i < n
        invariant
            0 <= i <= n,
            n == program@.len(),
            specs.deep_view() == spec_program_specs(program@.take(i as int)),
        decreases n - i,
    {
        let ghost before = specs.deep_view();
        match &program[i] {
            Stmt::Import { type_only, bindings, source } => {
                let included = if *type_only {
                    false
                } else {
                    match bindings {
                        Some(bs) => has_runtime_binding(bs),
                        None => true,
                    }
                };
                if included {
                    specs.push(Specifier { request: source.clone(), kind: SpecKind::Static });
                }
                proof {
                    assert(specs.deep_view() =~= before + spec_stmt_specs(program@[i as int]));
                }
            },
            Stmt::Expr(e) => {
                extract_require_from_expression(e, &mut specs);
            },
            Stmt::VarDecl(inits) => {
                extract_from_list(inits, &mut specs);
            },
            Stmt::Other => {
                proof {
                    assert(specs.deep_view() =~= before + spec_stmt_specs(program@[i as int]));
                }
            },
        }
        proof {
            lemma_program_specs_snoc(program@, i as int);
            assert(specs.deep_view() =~= spec_program_specs(program@.take(i + 1)));
        }
        i += 1;
    }
    proof {
        assert(program@.take(n as int) =~= program@);
    }
    specs
}

/// A faithful copy of a specifier list.
fn copy_specifiers(v: &Vec<Specifier>) -> (r: Vec<Specifier>)
    ensures
        r.deep_view() == v.deep_view(),
{
    let mut out: Vec<Specifier> = Vec::new();
    let n = v.len();
    let mut i: usize = 0;
    while i < n
        invariant
            0 <= i <= n,
            n == v@.len(),
            out.deep_view() =~= v.deep_view().take(i as int),
        decreases n - i,
    {
        let ghost before = out.deep_view();
        proof {
            assert(out.deep_view().len() == out@.len());
            assert(v.deep_view().take(i as int).len() == i);
        }
        let s = &v[i];
        out.push(Specifier { request: s.request.clone(), kind: s.kind });
        proof {
            assert(out@.len() == i + 1);
            assert(out.deep_view().len() == i + 1);
            assert forall|j: int| 0 <= j < i + 1 implies out.deep_view()[j] == v.deep_view().take(
                i + 1,
            )[j] by {
                if j < i {
                    assert(out.deep_view()[j] == before[j]);
                } else {
                    assert(out.deep_view()[j] == out@[j].deep_view());
                    assert(v.deep_view()[j] == v@[j].deep_view());
                }
            }
            assert(out.deep_view() =~= v.deep_view().take(i + 1));
        }
        i += 1;
    }
    proof {
        assert(v.deep_view().take(n as int) =~= v.deep_view());
    }
    out
}

/// Every memoized specifier list equals the extraction of the file's
/// parsed statements, and the memo is finite.
pub open spec fn import_cache_ok(
    store: SourceStore,
    m: Map<Seq<char>, Seq<SpecifierModel>>,
) -> bool {
    &&& m.dom().finite()
    &&& forall|k: Seq<char>| #[trigger]
        m.contains_key(k) ==> spec_imports(store, k) == Some(m[k])
}

/// The specifiers of `file`, from the memo or by extraction; `None` for a
/// file whose source the run does not hold. Only a successful extraction
/// is memoized.
pub fn imports_for(file: &str, store: &SourceStore, cache: &mut ImportCache) -> (r: Option<
    Vec<Specifier>,
>)
    requires
        import_cache_ok(*store, import_cache_view(*old(cache))),
    ensures
        match r {
            Some(v) => spec_imports(*store, file@) == Some(v.deep_view()),
            None => spec_imports(*store, file@) is None,
        },
        import_cache_view(*final(cache)) =~= (match spec_imports(*store, file@) {
            Some(specs) => import_cache_view(*old(cache)).insert(file@, specs),
            None => import_cache_view(*old(cache)),
        }),
        import_cache_ok(*store, import_cache_view(*final(cache))),
{
    if let Some(hit) = cache.get(file) {
        proof {
            let m = import_cache_view(*cache);
            assert(m =~= m.insert(file@, m[file@]));
        }
        return Some(hit);
    }
    match store.get_module(file) {
        Some(program) => {
            let specs = extract_specifiers(program);
            let stored = copy_specifiers(&specs);
            cache.insert(String::from_str(file), stored);
            Some(specs)
        },
        None => None,
    }
}

} // verus!
