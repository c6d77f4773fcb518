//! Core value types shared by the extraction, resolution and analysis passes.

use vstd::prelude::*;

verus! {

/// Whether an import specifier came from a static form (`import ... from`,
/// `require(...)`) or a dynamic `import(...)` expression.
#[derive(Debug, Clone, Copy, PartialEq, Eq, Structural)]
pub enum SpecKind {
    Static,
    Dynamic,
}

/// A raw import target string together with the form it originated from.
#[derive(Debug, Clone)]
pub struct Specifier {
    pub request: String,
    pub kind: SpecKind,
}

/// Mathematical image of a `Specifier`: the request as a character sequence.
pub ghost struct SpecifierModel {
    pub request: Seq<char>,
    pub kind: SpecKind,
}

impl View for Specifier {
    type V = SpecifierModel;

    open spec fn view(&self) -> SpecifierModel {
        SpecifierModel { request: self.request@, kind: self.kind }
    }
}

impl DeepView for Specifier {
    type V = SpecifierModel;

    open spec fn deep_view(&self) -> SpecifierModel {
        self.view()
    }
}

/// Pushing onto a list pushes onto its deep view.
pub proof fn lemma_vec_deep_push<T: DeepView>(a: Vec<T>, b: Vec<T>, x: T)
    requires
        b@ == a@.push(x),
    ensures
        b.deep_view() =~= a.deep_view().push(x.deep_view()),
{
    assert(b.deep_view().len() == a.deep_view().len() + 1);
    assert(b.deep_view()[a@.len() as int] == b@[a@.len() as int].deep_view());
    assert forall|k: int| 0 <= k < a@.len() implies b.deep_view()[k] == a.deep_view()[k] by {
        assert(b.deep_view()[k] == b@[k].deep_view());
        assert(a.deep_view()[k] == a@[k].deep_view());
    }
}

} // verus!
