//! Finitely presented categories whose generators are interned names.
//!
//! A [`UstrFinCategory`] is built in place: objects first, then morphism
//! generators between registered objects, then declared composites. Every
//! operation either succeeds or leaves the category exactly as it was.
//! Registering a name a second time is an error, never a silent no-op.

use crate::one::presentation::{HomSig, HomTerm, Name, Presentation};
use crate::symbol::{opt_text, texts, ustr_text};
use ustr::Ustr;
use vstd::prelude::*;

verus! {

/// Morphism in a finitely presented category, as far as the fact table
/// knows morphisms: an identity or a single generator.
#[derive(Clone, Copy, Debug, PartialEq, Eq, Hash)]
pub enum FinHom {
    /// Identity morphism on an object.
    Id(Ustr),
    /// Generating morphism of the category.
    Generator(Ustr),
}

impl View for FinHom {
    type V = HomTerm;

    open spec fn view(&self) -> HomTerm {
        match *self {
            FinHom::Id(x) => HomTerm::Id(ustr_text(x)),
            FinHom::Generator(f) => HomTerm::Generator(ustr_text(f)),
        }
    }
}

/// The term behind a morphism that may be absent.
pub open spec fn opt_term(o: Option<FinHom>) -> Option<HomTerm> {
    match o {
        Some(h) => Some(h@),
        None => None,
    }
}

/// Why an operation on a category was refused.
#[derive(Clone, Copy, Debug, PartialEq, Eq, Structural)]
pub enum CategoryError {
    /// The object is already registered.
    DuplicateObject,
    /// The morphism generator is already registered.
    DuplicateMorphism,
    /// A morphism generator names an endpoint that is not a registered object.
    UnknownObject,
    /// The endpoints of a declared composite do not line up.
    EndpointMismatch,
}

/// A morphism generator with its endpoints.
#[derive(Clone, Copy, Debug)]
struct HomGenerator {
    name: Ustr,
    dom: Ustr,
    cod: Ustr,
}

impl View for HomGenerator {
    type V = HomSig;

    closed spec fn view(&self) -> HomSig {
        HomSig { name: ustr_text(self.name), dom: ustr_text(self.dom), cod: ustr_text(self.cod) }
    }
}

/// One declared composite: `first` followed by `second` equals `term`.
#[derive(Clone, Copy, Debug)]
struct CompositeFact {
    first: Ustr,
    second: Ustr,
    term: FinHom,
}

spec fn sigs(s: Seq<HomGenerator>) -> Seq<HomSig> {
    s.map_values(|h: HomGenerator| h@)
}

spec fn fact_key(c: CompositeFact) -> (Name, Name) {
    (ustr_text(c.first), ustr_text(c.second))
}

spec fn fact_keys(s: Seq<CompositeFact>) -> Seq<(Name, Name)> {
    s.map_values(|c: CompositeFact| fact_key(c))
}

/// The table that a list of facts with distinct keys stands for.
spec fn facts_map(s: Seq<CompositeFact>) -> Map<(Name, Name), HomTerm> {
    Map::new(
        |k: (Name, Name)| fact_keys(s).contains(k),
        |k: (Name, Name)| s[fact_keys(s).index_of(k)].term@,
    )
}

/// A fact is found in the table under its own key.
proof fn lemma_fact_found(s: Seq<CompositeFact>, i: int)
    requires
        fact_keys(s).no_duplicates(),
        0 <= i < s.len(),
    ensures
        facts_map(s).contains_key(fact_key(s[i])),
        facts_map(s)[fact_key(s[i])] == s[i].term@,
{
    assert(fact_keys(s)[i] == fact_key(s[i]));
}

/// Appending a fact under a fresh key inserts it into the table.
proof fn lemma_fact_pushed(s: Seq<CompositeFact>, c: CompositeFact)
    requires
        fact_keys(s).no_duplicates(),
        !fact_keys(s).contains(fact_key(c)),
    ensures
        fact_keys(s.push(c)).no_duplicates(),
        facts_map(s.push(c)) == facts_map(s).insert(fact_key(c), c.term@),
{
    let t = s.push(c);
    let n = s.len() as int;
    assert(fact_keys(t) == fact_keys(s).push(fact_key(c)));
    lemma_fact_found(t, n);
    assert forall|k: (Name, Name)| #[trigger] facts_map(s).contains_key(k) implies facts_map(
        t,
    ).contains_key(k) && facts_map(t)[k] == facts_map(s)[k] by {
        let i = fact_keys(s).index_of(k);
        assert(fact_keys(s)[i] == k);
        lemma_fact_found(s, i);
        lemma_fact_found(t, i);
    }
    assert forall|k: (Name, Name)| #[trigger] facts_map(t).contains_key(k) implies k == fact_key(c)
        || facts_map(s).contains_key(k) by {
        let i = fact_keys(t).index_of(k);
        assert(fact_keys(t)[i] == k);
        if i < n {
            assert(fact_keys(s)[i] == k);
        }
    }
    assert(facts_map(t) =~= facts_map(s).insert(fact_key(c), c.term@));
}

/// Overwriting a fact by one with the same key replaces its term in the
/// table.
proof fn lemma_fact_replaced(s: Seq<CompositeFact>, i: int, c: CompositeFact)
    requires
        fact_keys(s).no_duplicates(),
        0 <= i < s.len(),
        fact_key(s[i]) == fact_key(c),
    ensures
        fact_keys(s.update(i, c)) == fact_keys(s),
        facts_map(s.update(i, c)) == facts_map(s).insert(fact_key(c), c.term@),
{
    let t = s.update(i, c);
    assert(fact_keys(t) =~= fact_keys(s));
    assert(fact_keys(s)[i] == fact_key(s[i]));
    assert forall|k: (Name, Name)| #[trigger] facts_map(s).contains_key(k) implies facts_map(t)[k]
        == (if k == fact_key(c) {
        c.term@
    } else {
        facts_map(s)[k]
    }) by {
        let j = fact_keys(s).index_of(k);
        assert(fact_keys(s)[j] == k);
        lemma_fact_found(s, j);
        lemma_fact_found(t, j);
    }
    lemma_fact_found(s, i);
    assert(facts_map(t) =~= facts_map(s).insert(fact_key(c), c.term@));
}

/// A finitely presented category with interned names for its generators.
#[derive(Debug)]
pub struct UstrFinCategory {
    obs: Vec<Ustr>,
    homs: Vec<HomGenerator>,
    facts: Vec<CompositeFact>,
}

impl View for UstrFinCategory {
    type V = Presentation;

    closed spec fn view(&self) -> Presentation {
        Presentation {
            obs: texts(self.obs@),
            homs: sigs(self.homs@),
            composites: facts_map(self.facts@),
        }
    }
}

/// The position of the first handle in `names` that stands for the same
/// characters as `id`.
fn position(names: &Vec<Ustr>, id: Ustr) -> (r: Option<usize>)
    ensures
        match r {
            Some(i) => i < names.len() && texts(names@)[i as int] == ustr_text(id),
            None => !texts(names@).contains(ustr_text(id)),
        },
{
    let mut i: usize = 0;
    while i < names.len()
        invariant
            i <= names.len(),
            forall|j: int| 0 <= j < i ==> texts(names@)[j] != ustr_text(id),
        decreases names.len() - i,
    {
        if names[i] == id {
            return Some(i);
        }
        i += 1;
    }
    None
}

impl UstrFinCategory {
    /// No ordered pair has two entries in the table of composites.
    pub(crate) closed spec fn one_fact_per_pair(&self) -> bool {
        fact_keys(self.facts@).no_duplicates()
    }

    #[verifier::type_invariant]
    pub(crate) open spec fn inv(&self) -> bool {
        self@.wf() && self.one_fact_per_pair()
    }

    /// The category with no generators and no declared composites.
    pub fn new() -> (cat: Self)
        ensures
            cat@ == Presentation::empty(),
            cat@.wf(),
    {
        let cat = UstrFinCategory { obs: Vec::new(), homs: Vec::new(), facts: Vec::new() };
        assert(cat@ =~= Presentation::empty()) by {
            assert(texts(cat.obs@) =~= Seq::empty());
            assert(sigs(cat.homs@) =~= Seq::empty());
            assert(facts_map(cat.facts@) =~= Map::empty());
        }
        cat
    }

    /// Moves the three tables out and leaves the empty category behind, so
    /// that a caller can change them and put a whole category back.
    fn take_tables(&mut self) -> (t: (Vec<Ustr>, Vec<HomGenerator>, Vec<CompositeFact>))
        ensures
            t.0 == old(self).obs,
            t.1 == old(self).homs,
            t.2 == old(self).facts,
    {
        let mut taken = UstrFinCategory::new();
        core::mem::swap(self, &mut taken);
        (taken.obs, taken.homs, taken.facts)
    }

    /// The position of the morphism generator named like `f`.
    fn hom_position(&self, f: Ustr) -> (r: Option<usize>)
        ensures
            match r {
                Some(i) => i < self.homs.len() && self.homs[i as int]@ == self@.hom(ustr_text(f))
                    && self@.has_hom(ustr_text(f)),
                None => !self@.has_hom(ustr_text(f)),
            },
    {
        proof {
            use_type_invariant(self);
        }
        let mut i: usize = 0;
        while i < self.homs.len()
            invariant
                i <= self.homs.len(),
                self@.hom_names().no_duplicates(),
                forall|j: int| 0 <= j < i ==> self@.hom_names()[j] != ustr_text(f),
            decreases self.homs.len() - i,
        {
            if self.homs[i].name == f {
                proof {
                    self@.lemma_hom_found(i as int);
                }
                return Some(i);
            }
            i += 1;
        }
        None
    }

    /// The position of the fact declared for `f` followed by `g`.
    fn fact_position(&self, f: Ustr, g: Ustr) -> (r: Option<usize>)
        ensures
            match r {
                Some(i) => i < self.facts.len() && fact_key(self.facts[i as int]) == (
                    ustr_text(f),
                    ustr_text(g),
                ),
                None => !fact_keys(self.facts@).contains((ustr_text(f), ustr_text(g))),
            },
    {
        let mut i: usize = 0;
        while i < self.facts.len()
            invariant
                i <= self.facts.len(),
                forall|j: int|
                    0 <= j < i ==> fact_keys(self.facts@)[j] != (ustr_text(f), ustr_text(g)),
            decreases self.facts.len() - i,
        {
            if self.facts[i].first == f && self.facts[i].second == g {
                return Some(i);
            }
            i += 1;
        }
        None
    }

    /// Whether `x` is a registered object.
    pub fn has_ob(&self, x: Ustr) -> (r: bool)
        ensures
            r == self@.has_ob(ustr_text(x)),
    {
        position(&self.obs, x).is_some()
    }

    /// Whether `f` is a registered morphism generator.
    pub fn has_hom(&self, f: Ustr) -> (r: bool)
        ensures
            r == self@.has_hom(ustr_text(f)),
    {
        self.hom_position(f).is_some()
    }

    /// The domain of the morphism generator `f`, if `f` is registered.
    pub fn dom(&self, f: Ustr) -> (r: Option<Ustr>)
        ensures
            opt_text(r) == self@.dom(ustr_text(f)),
    {
        match self.hom_position(f) {
            Some(i) => Some(self.homs[i].dom),
            None => None,
        }
    }

    /// The codomain of the morphism generator `f`, if `f` is registered.
    pub fn cod(&self, f: Ustr) -> (r: Option<Ustr>)
        ensures
            opt_text(r) == self@.cod(ustr_text(f)),
    {
        match self.hom_position(f) {
            Some(i) => Some(self.homs[i].cod),
            None => None,
        }
    }

    /// Registers the object `id`. A name that is already registered is
    /// refused and the category stays as it was.
    pub fn add_ob_generator(&mut self, id: Ustr) -> (r: Result<(), CategoryError>)
        ensures
            r == (if old(self)@.has_ob(ustr_text(id)) {
                Err::<(), CategoryError>(CategoryError::DuplicateObject)
            } else {
                Ok(())
            }),
            final(self)@ == (if r is Ok {
                old(self)@.with_ob(ustr_text(id))
            } else {
                old(self)@
            }),
            final(self)@.wf(),
    {
        proof {
            use_type_invariant(&*self);
        }
        if position(&self.obs, id).is_some() {
            return Err(CategoryError::DuplicateObject);
        }
        proof {
            self@.lemma_with_ob(ustr_text(id));
            assert(texts(self.obs@.push(id)) =~= texts(self.obs@).push(ustr_text(id)));
        }
        let (mut obs, homs, facts) = self.take_tables();
        obs.push(id);
        *self = UstrFinCategory { obs, homs, facts };
        Ok(())
    }

    /// Registers the morphism generator `id` from `dom` to `cod`. Both
    /// endpoints must be registered objects, which is tested first, and the
    /// name must be new; otherwise the category stays as it was.
    pub fn add_hom_generator(&mut self, id: Ustr, dom: Ustr, cod: Ustr) -> (r: Result<
        (),
        CategoryError,
    >)
        ensures
            r == (if !old(self)@.has_ob(ustr_text(dom)) || !old(self)@.has_ob(ustr_text(cod)) {
                Err::<(), CategoryError>(CategoryError::UnknownObject)
            } else if old(self)@.has_hom(ustr_text(id)) {
                Err(CategoryError::DuplicateMorphism)
            } else {
                Ok(())
            }),
            final(self)@ == (if r is Ok {
                old(self)@.with_hom(ustr_text(id), ustr_text(dom), ustr_text(cod))
            } else {
                old(self)@
            }),
            final(self)@.wf(),
    {
        proof {
            use_type_invariant(&*self);
        }
        if !self.has_ob(dom) || !self.has_ob(cod) {
            return Err(CategoryError::UnknownObject);
        }
        if self.has_hom(id) {
            return Err(CategoryError::DuplicateMorphism);
        }
        let generator = HomGenerator { name: id, dom, cod };
        proof {
            self@.lemma_with_hom(ustr_text(id), ustr_text(dom), ustr_text(cod));
            assert(sigs(self.homs@.push(generator)) =~= sigs(self.homs@).push(generator@));
        }
        let (obs, mut homs, facts) = self.take_tables();
        homs.push(generator);
        *self = UstrFinCategory { obs, homs, facts };
        Ok(())
    }

    /// Whether `h` runs from `from` to `to`.
    fn term_runs(&self, h: FinHom, from: Ustr, to: Ustr) -> (r: bool)
        requires
            self@.has_ob(ustr_text(from)),
        ensures
            r == (self@.ends(h@) == Some((ustr_text(from), ustr_text(to)))),
    {
        match h {
            FinHom::Id(x) => x == from && x == to,
            FinHom::Generator(k) => match self.hom_position(k) {
                Some(i) => self.homs[i].dom == from && self.homs[i].cod == to,
                None => false,
            },
        }
    }

    /// Whether `f` followed by `g` may be declared equal to `h`.
    pub fn composable(&self, f: Ustr, g: Ustr, h: FinHom) -> (r: bool)
        ensures
            r == self@.composable(ustr_text(f), ustr_text(g), h@),
    {
        proof {
            use_type_invariant(self);
        }
        match (self.hom_position(f), self.hom_position(g)) {
            (Some(i), Some(j)) => {
                proof {
                    self@.lemma_hom_ends(ustr_text(f));
                }
                self.homs[i].cod == self.homs[j].dom && self.term_runs(
                    h,
                    self.homs[i].dom,
                    self.homs[j].cod,
                )
            },
            _ => false,
        }
    }

    /// Declares that `f` followed by `g` equals `h`, in place of whatever
    /// was declared for that pair before. Nothing else is derived from the
    /// new fact. Where the endpoints do not line up (an unregistered
    /// morphism has none) the category stays as it was.
    pub fn set_composite(&mut self, f: Ustr, g: Ustr, h: FinHom) -> (r: Result<
        (),
        CategoryError,
    >)
        ensures
            r == (if old(self)@.composable(ustr_text(f), ustr_text(g), h@) {
                Ok::<(), CategoryError>(())
            } else {
                Err(CategoryError::EndpointMismatch)
            }),
            final(self)@ == (if r is Ok {
                old(self)@.with_composite(ustr_text(f), ustr_text(g), h@)
            } else {
                old(self)@
            }),
            final(self)@.wf(),
    {
        proof {
            use_type_invariant(&*self);
        }
        if !self.composable(f, g, h) {
            return Err(CategoryError::EndpointMismatch);
        }
        let fact = CompositeFact { first: f, second: g, term: h };
        let found = self.fact_position(f, g);
        proof {
            self@.lemma_with_composite(ustr_text(f), ustr_text(g), h@);
        }
        let (obs, homs, mut facts) = self.take_tables();
        match found {
            Some(i) => {
                proof {
                    lemma_fact_replaced(facts@, i as int, fact);
                }
                facts.set(i, fact);
            },
            None => {
                proof {
                    lemma_fact_pushed(facts@, fact);
                }
                facts.push(fact);
            },
        }
        *self = UstrFinCategory { obs, homs, facts };
        Ok(())
    }

    /// The term declared for `f` followed by `g`. A pair for which nothing
    /// was declared has no term; that is an answer, not an error.
    pub fn composite_of(&self, f: Ustr, g: Ustr) -> (r: Option<FinHom>)
        ensures
            opt_term(r) == self@.composite_of(ustr_text(f), ustr_text(g)),
    {
        proof {
            use_type_invariant(self);
        }
        match self.fact_position(f, g) {
            Some(i) => {
                proof {
                    lemma_fact_found(self.facts@, i as int);
                }
                Some(self.facts[i].term)
            },
            None => None,
        }
    }

    /// The registered objects, in the order in which they were registered.
    pub fn basic_ob_types(&self) -> (r: Vec<Ustr>)
        ensures
            r@.len() == self@.obs.len(),
            texts(r@) == self@.obs,
    {
        let mut out: Vec<Ustr> = Vec::new();
        let mut i: usize = 0;
        while i < self.obs.len()
            invariant
                i <= self.obs.len(),
                out@ == self.obs@.take(i as int),
            decreases self.obs.len() - i,
        {
            out.push(self.obs[i]);
            i += 1;
            assert(out@ =~= self.obs@.take(i as int));
        }
        assert(out@ =~= self.obs@);
        out
    }

    /// The registered morphism generators, in the order in which they were
    /// registered.
    pub fn basic_mor_types(&self) -> (r: Vec<Ustr>)
        ensures
            r@.len() == self@.homs.len(),
            texts(r@) == self@.hom_names(),
    {
        let mut out: Vec<Ustr> = Vec::new();
        let mut i: usize = 0;
        while i < self.homs.len()
            invariant
                i <= self.homs.len(),
                out@.len() == i,
                forall|j: int| 0 <= j < i ==> out@[j] == self.homs@[j].name,
            decreases self.homs.len() - i,
        {
            out.push(self.homs[i].name);
            i += 1;
        }
        assert(texts(out@) =~= self@.hom_names());
        out
    }
}

impl Default for UstrFinCategory {
    /// The category with no generators and no declared composites.
    fn default() -> (cat: Self)
        ensures
            cat@ == Presentation::empty(),
            cat@.wf(),
    {
        UstrFinCategory::new()
    }
}

} // verus!
