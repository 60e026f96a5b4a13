//! Sections: named, mutually exclusive continuations of a test case.
use vstd::prelude::*;
use crate::names::{Name, Diagnostic, name_as_ident2, blank, underscored, empty_name_diag};

verus! {

/// A named section and its statements, each an opaque code span.
pub struct Section {
    pub name: Name,
    pub code: Vec<String>,
}

/// A section with its rank among the sections of its test case.
pub struct IndexSection {
    pub index: usize,
    pub section: Section,
}

/// Copies a sequence of code spans.
pub fn copy_spans(v: &Vec<String>) -> (r: Vec<String>)
    ensures
        r@ == v@,
{
    let mut r: Vec<String> = Vec::new();
    let mut i: usize = 0;
    while i < v.len()
        invariant
            i <= v.len(),
            r@ == v@.subrange(0, i as int),
        decreases v.len() - i,
    {
        r.push(v[i].clone());
        i = i + 1;
        assert(r@ =~= v@.subrange(0, i as int));
    }
    assert(v@.subrange(0, v.len() as int) =~= v@);
    r
}

impl IndexSection {
    pub fn new(index: usize, section: Section) -> (r: IndexSection)
        ensures
            r.index == index,
            r.section == section,
    {
        IndexSection { index, section }
    }

    /// The identifier of the unit that runs this section, or the diagnostic
    /// that rejects its name.
    pub fn name(&self) -> (r: Result<String, Diagnostic>)
        ensures
            r is Err <==> blank(self.section.name.text@),
            r matches Ok(id) ==> id@ == underscored(self.section.name.text@),
            r matches Err(d) ==> d@ == empty_name_diag("section"@, self.section.name),
    {
        name_as_ident2("section", &self.section.name)
    }

    pub fn index(&self) -> (r: usize)
        ensures
            r == self.index,
    {
        self.index
    }
}

} // verus!
