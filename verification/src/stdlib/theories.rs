//! Standard library of double theories.

use crate::dbl::theory::DiscreteDblTheory;
use crate::one::fin_category::{FinHom, UstrFinCategory};
use crate::one::presentation::{HomSig, HomTerm, Presentation};
use ustr::ustr;
use vstd::prelude::*;

verus! {

/// The theory of categories, aka the trivial double theory.
///
/// As a double category, this is the terminal double category.
pub fn th_category() -> (th: DiscreteDblTheory)
    ensures
        th@ == (Presentation { obs: seq!["object"@], homs: seq![], composites: map![] }),
        th@.wf(),
{
    let mut cat: UstrFinCategory = Default::default();
    let _ = cat.add_ob_generator(ustr("object"));
    DiscreteDblTheory::from(cat)
}

/// The theory of database schemas with attributes.
///
/// As a double category, this is the "walking proarrow".
pub fn th_schema() -> (th: DiscreteDblTheory)
    ensures
        th@ == (Presentation {
            obs: seq!["entity"@, "attr_type"@],
            homs: seq![HomSig { name: "attr"@, dom: "entity"@, cod: "attr_type"@ }],
            composites: map![],
        }),
        th@.wf(),
{
    let mut cat: UstrFinCategory = Default::default();
    let (x, y, p) = (ustr("entity"), ustr("attr_type"), ustr("attr"));
    proof {
        reveal_strlit("entity");
        reveal_strlit("attr_type");
        assert("entity"@.len() != "attr_type"@.len());
    }
    let _ = cat.add_ob_generator(x);
    let _ = cat.add_ob_generator(y);
    assert(cat@.obs =~= seq!["entity"@, "attr_type"@]);
    assert(cat@.obs[0] == "entity"@ && cat@.obs[1] == "attr_type"@);
    let _ = cat.add_hom_generator(p, x, y);
    DiscreteDblTheory::from(cat)
}

/// The theory of signed categories.
///
/// A signed category is a category sliced over the group of signs.
pub fn th_signed_category() -> (th: DiscreteDblTheory)
    ensures
        th@ == (Presentation {
            obs: seq!["object"@],
            homs: seq![HomSig { name: "negative"@, dom: "object"@, cod: "object"@ }],
            composites: map![("negative"@, "negative"@) => HomTerm::Id("object"@)],
        }),
        th@.wf(),
{
    let mut sgn: UstrFinCategory = Default::default();
    let (x, n) = (ustr("object"), ustr("negative"));
    let _ = sgn.add_ob_generator(x);
    assert(sgn@.obs[0] == "object"@);
    let _ = sgn.add_hom_generator(n, x, x);
    proof {
        sgn@.lemma_hom_found(0);
    }
    let _ = sgn.set_composite(n, n, FinHom::Id(x));
    DiscreteDblTheory::from(sgn)
}

} // verus!
