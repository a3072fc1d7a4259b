//! Discrete double theories.
//!
//! A discrete double theory is a category seen as a double category whose
//! proarrows are all trivial: its object types are the objects of the
//! category and its morphism types are the morphism generators.

use crate::one::fin_category::UstrFinCategory;
use crate::one::presentation::Presentation;
use crate::symbol::texts;
use ustr::Ustr;
use vstd::prelude::*;
use vstd::std_specs::convert::FromSpecImpl;

verus! {

/// A discrete double theory: a read-only wrapper around the finitely
/// presented category that it owns.
#[derive(Debug)]
pub struct DiscreteDblTheory {
    cat: UstrFinCategory,
}

impl View for DiscreteDblTheory {
    type V = Presentation;

    closed spec fn view(&self) -> Presentation {
        self.cat@
    }
}

impl FromSpecImpl<UstrFinCategory> for DiscreteDblTheory {
    open spec fn obeys_from_spec() -> bool {
        true
    }

    closed spec fn from_spec(cat: UstrFinCategory) -> Self {
        DiscreteDblTheory { cat }
    }
}

impl From<UstrFinCategory> for DiscreteDblTheory {
    /// Freezes a finished category into the theory that it presents.
    fn from(cat: UstrFinCategory) -> (th: Self)
        ensures
            th@ == cat@,
            th@.wf(),
    {
        proof {
            use_type_invariant(&cat);
        }
        DiscreteDblTheory { cat }
    }
}

impl DiscreteDblTheory {
    /// The category that the theory was made from.
    pub fn category(&self) -> (cat: &UstrFinCategory)
        ensures
            cat@ == self@,
            cat@.wf(),
    {
        proof {
            use_type_invariant(&self.cat);
        }
        &self.cat
    }

    /// The basic object types: the objects of the category, in the order in
    /// which they were registered.
    pub fn basic_ob_types(&self) -> (r: Vec<Ustr>)
        ensures
            r@.len() == self@.obs.len(),
            texts(r@) == self@.obs,
    {
        self.cat.basic_ob_types()
    }

    /// The basic morphism types: the morphism generators of the category,
    /// in the order in which they were registered.
    pub fn basic_mor_types(&self) -> (r: Vec<Ustr>)
        ensures
            r@.len() == self@.homs.len(),
            texts(r@) == self@.hom_names(),
    {
        self.cat.basic_mor_types()
    }
}

} // verus!
