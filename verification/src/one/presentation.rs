//! The mathematical model of a finite presentation of a category.
//!
//! A presentation lists generating objects, generating morphisms with their
//! endpoints, and a table of declared composites. It is a fact table, not a
//! rewriting system: nothing is closed under associativity or transitivity.

use vstd::prelude::*;

verus! {

/// A generator's name, as the characters of its label.
pub type Name = Seq<char>;

/// A generating morphism together with its endpoints.
pub ghost struct HomSig {
    pub name: Name,
    pub dom: Name,
    pub cod: Name,
}

/// A morphism term: the identity on an object, or a single generator.
pub ghost enum HomTerm {
    Id(Name),
    Generator(Name),
}

/// A finite presentation: objects and morphism generators in the order in
/// which they were registered, and the declared composites keyed by the
/// ordered pair of morphisms that they equate.
pub ghost struct Presentation {
    pub obs: Seq<Name>,
    pub homs: Seq<HomSig>,
    pub composites: Map<(Name, Name), HomTerm>,
}

impl Presentation {
    /// The presentation with no generators and no composites.
    pub open spec fn empty() -> Presentation {
        Presentation { obs: Seq::empty(), homs: Seq::empty(), composites: Map::empty() }
    }

    /// `x` is a registered object.
    pub open spec fn has_ob(self, x: Name) -> bool {
        self.obs.contains(x)
    }

    /// The names of the morphism generators, in the order of registration.
    pub open spec fn hom_names(self) -> Seq<Name> {
        self.homs.map_values(|h: HomSig| h.name)
    }

    /// `f` is a registered morphism generator.
    pub open spec fn has_hom(self, f: Name) -> bool {
        self.hom_names().contains(f)
    }

    /// The registered generator named `f`.
    pub open spec fn hom(self, f: Name) -> HomSig
        recommends
            self.has_hom(f),
    {
        self.homs[self.hom_names().index_of(f)]
    }

    /// The domain of the generator `f`, if it is registered.
    pub open spec fn dom(self, f: Name) -> Option<Name> {
        if self.has_hom(f) {
            Some(self.hom(f).dom)
        } else {
            None
        }
    }

    /// The codomain of the generator `f`, if it is registered.
    pub open spec fn cod(self, f: Name) -> Option<Name> {
        if self.has_hom(f) {
            Some(self.hom(f).cod)
        } else {
            None
        }
    }

    /// Domain and codomain of a term. A term over an unregistered object or
    /// generator has no endpoints.
    pub open spec fn ends(self, h: HomTerm) -> Option<(Name, Name)> {
        match h {
            HomTerm::Id(x) => if self.has_ob(x) {
                Some((x, x))
            } else {
                None
            },
            HomTerm::Generator(k) => if self.has_hom(k) {
                Some((self.hom(k).dom, self.hom(k).cod))
            } else {
                None
            },
        }
    }

    /// The composite of `f` followed by `g` may be declared equal to `h`:
    /// both are registered, `f` ends where `g` starts, and `h` runs from the
    /// domain of `f` to the codomain of `g`.
    pub open spec fn composable(self, f: Name, g: Name, h: HomTerm) -> bool {
        &&& self.has_hom(f)
        &&& self.has_hom(g)
        &&& self.hom(f).cod == self.hom(g).dom
        &&& self.ends(h) == Some((self.hom(f).dom, self.hom(g).cod))
    }

    /// The term declared for `f` followed by `g`, if one was declared.
    pub open spec fn composite_of(self, f: Name, g: Name) -> Option<HomTerm> {
        if self.composites.contains_key((f, g)) {
            Some(self.composites[(f, g)])
        } else {
            None
        }
    }

    /// A new object may be registered under `x`.
    pub open spec fn accepts_ob(self, x: Name) -> bool {
        !self.has_ob(x)
    }

    /// A new morphism generator `f` from `d` to `c` may be registered.
    pub open spec fn accepts_hom(self, f: Name, d: Name, c: Name) -> bool {
        self.has_ob(d) && self.has_ob(c) && !self.has_hom(f)
    }

    /// The presentation with the object `x` registered last.
    pub open spec fn with_ob(self, x: Name) -> Presentation {
        Presentation { obs: self.obs.push(x), ..self }
    }

    /// The presentation with the generator `f` from `d` to `c` registered last.
    pub open spec fn with_hom(self, f: Name, d: Name, c: Name) -> Presentation {
        Presentation { homs: self.homs.push(HomSig { name: f, dom: d, cod: c }), ..self }
    }

    /// The presentation in which `f` followed by `g` is declared equal to
    /// `h`, in place of whatever was declared for that pair before.
    pub open spec fn with_composite(self, f: Name, g: Name, h: HomTerm) -> Presentation {
        Presentation { composites: self.composites.insert((f, g), h), ..self }
    }

    /// Both endpoints of `s` are registered objects.
    pub open spec fn runs_between_obs(self, s: HomSig) -> bool {
        self.has_ob(s.dom) && self.has_ob(s.cod)
    }

    /// No name is registered twice, every generator runs between registered
    /// objects, and every declared composite is one that may be declared.
    pub open spec fn wf(self) -> bool {
        &&& self.obs.no_duplicates()
        &&& self.hom_names().no_duplicates()
        &&& forall|i: int|
            0 <= i < self.homs.len() ==> self.runs_between_obs(#[trigger] self.homs[i])
        &&& forall|k: (Name, Name)| #[trigger]
            self.composites.contains_key(k) ==> self.composable(k.0, k.1, self.composites[k])
    }

    /// Where no name is registered twice, a generator is found under its own
    /// name.
    pub proof fn lemma_hom_found(self, i: int)
        requires
            self.hom_names().no_duplicates(),
            0 <= i < self.homs.len(),
        ensures
            self.has_hom(self.homs[i].name),
            self.hom(self.homs[i].name) == self.homs[i],
    {
        let names = self.hom_names();
        assert(names[i] == self.homs[i].name);
    }

    /// A registered generator's endpoints are registered objects.
    pub proof fn lemma_hom_ends(self, f: Name)
        requires
            self.wf(),
            self.has_hom(f),
        ensures
            self.hom(f).name == f,
            self.has_ob(self.hom(f).dom),
            self.has_ob(self.hom(f).cod),
    {
        let names = self.hom_names();
        let i = names.index_of(f);
        assert(names[i] == f);
    }

    /// Registering a new object keeps a presentation well-formed, and
    /// whatever could be declared before can still be declared.
    pub proof fn lemma_with_ob(self, x: Name)
        requires
            self.wf(),
            self.accepts_ob(x),
        ensures
            self.with_ob(x).wf(),
            forall|y: Name| self.has_ob(y) ==> self.with_ob(x).has_ob(y),
            forall|f: Name, g: Name, h: HomTerm|
                self.composable(f, g, h) ==> self.with_ob(x).composable(f, g, h),
    {
        let q = self.with_ob(x);
        assert forall|y: Name| self.has_ob(y) implies q.has_ob(y) by {
            let i = self.obs.index_of(y);
            assert(q.obs[i] == y);
        }
        assert(q.hom_names() == self.hom_names());
    }

    /// Registering a new generator between registered objects keeps a
    /// presentation well-formed, leaves the registered generators as they
    /// were, and whatever could be declared before can still be declared.
    pub proof fn lemma_with_hom(self, f: Name, d: Name, c: Name)
        requires
            self.wf(),
            self.accepts_hom(f, d, c),
        ensures
            self.with_hom(f, d, c).wf(),
            self.with_hom(f, d, c).has_hom(f),
            self.with_hom(f, d, c).hom(f) == (HomSig { name: f, dom: d, cod: c }),
            forall|k: Name|
                self.has_hom(k) ==> self.with_hom(f, d, c).has_hom(k) && self.with_hom(f, d, c).hom(
                    k,
                ) == self.hom(k),
            forall|k: Name| self.with_hom(f, d, c).has_hom(k) ==> k == f || self.has_hom(k),
            forall|k: Name, g: Name, h: HomTerm|
                self.composable(k, g, h) ==> self.with_hom(f, d, c).composable(k, g, h),
    {
        let q = self.with_hom(f, d, c);
        let n = self.homs.len() as int;
        assert(q.hom_names() == self.hom_names().push(f));
        assert(q.hom_names().no_duplicates());
        q.lemma_hom_found(n);
        assert forall|k: Name| self.has_hom(k) implies q.has_hom(k) && q.hom(k) == self.hom(k) by {
            let i = self.hom_names().index_of(k);
            self.lemma_hom_found(i);
            q.lemma_hom_found(i);
        }
        assert forall|k: Name| q.has_hom(k) implies k == f || self.has_hom(k) by {
            let i = q.hom_names().index_of(k);
            if i < n {
                assert(self.hom_names()[i] == k);
            }
        }
        assert forall|i: int| 0 <= i < q.homs.len() implies q.runs_between_obs(
            #[trigger] q.homs[i],
        ) by {
            if i < n {
                assert(self.runs_between_obs(self.homs[i]));
            }
        }
    }

    /// Declaring a composite that may be declared keeps a presentation
    /// well-formed.
    pub proof fn lemma_with_composite(self, f: Name, g: Name, h: HomTerm)
        requires
            self.wf(),
            self.composable(f, g, h),
        ensures
            self.with_composite(f, g, h).wf(),
    {
        let q = self.with_composite(f, g, h);
        assert(q.hom_names() == self.hom_names());
        assert forall|k: (Name, Name)| #[trigger]
            q.composites.contains_key(k) implies q.composable(k.0, k.1, q.composites[k]) by {
            if k != (f, g) {
                assert(self.composites.contains_key(k));
            }
        }
    }
}

} // verus!
