//! Presentations as the outcome of a history of requests.
//!
//! A presentation is built by a sequence of requests, each of which is
//! either granted, and changes the presentation, or refused, and changes
//! nothing. The laws in this module speak of whole histories: how many
//! generators a history leaves behind, which composite a lookup finds, and
//! that the order of the requests does not matter as long as all of them
//! are granted.

use crate::one::presentation::{HomSig, HomTerm, Name, Presentation};
use vstd::prelude::*;

verus! {

/// One request to a presentation.
pub ghost enum Op {
    /// Register an object.
    AddOb(Name),
    /// Register a morphism generator: its name, domain and codomain.
    AddHom(Name, Name, Name),
    /// Declare the composite of the first followed by the second.
    SetComposite(Name, Name, HomTerm),
}

impl Op {
    /// The request is one to declare the composite of `f` followed by `g`.
    pub open spec fn declares(self, f: Name, g: Name) -> bool {
        self matches Op::SetComposite(a, b, _) && a == f && b == g
    }
}

impl Presentation {
    /// The request is granted in this presentation.
    pub open spec fn accepts(self, op: Op) -> bool {
        match op {
            Op::AddOb(x) => self.accepts_ob(x),
            Op::AddHom(f, d, c) => self.accepts_hom(f, d, c),
            Op::SetComposite(f, g, h) => self.composable(f, g, h),
        }
    }

    /// The presentation after the request: changed if the request is
    /// granted, the same if it is refused.
    pub open spec fn step(self, op: Op) -> Presentation {
        if self.accepts(op) {
            match op {
                Op::AddOb(x) => self.with_ob(x),
                Op::AddHom(f, d, c) => self.with_hom(f, d, c),
                Op::SetComposite(f, g, h) => self.with_composite(f, g, h),
            }
        } else {
            self
        }
    }

    /// The presentation after all the requests, made from first to last.
    pub open spec fn run(self, ops: Seq<Op>) -> Presentation
        decreases ops.len(),
    {
        if ops.len() == 0 {
            self
        } else {
            self.run(ops.drop_last()).step(ops.last())
        }
    }

    /// Each request of the history is granted when its turn comes.
    pub open spec fn grants_all(self, ops: Seq<Op>) -> bool
        decreases ops.len(),
    {
        ops.len() > 0 ==> self.grants_all(ops.drop_last()) && self.run(ops.drop_last()).accepts(
            ops.last(),
        )
    }

    /// How many requests to register an object the history grants.
    pub open spec fn obs_granted(self, ops: Seq<Op>) -> nat
        decreases ops.len(),
    {
        if ops.len() == 0 {
            0
        } else if ops.last() is AddOb && self.run(ops.drop_last()).accepts(ops.last()) {
            self.obs_granted(ops.drop_last()) + 1
        } else {
            self.obs_granted(ops.drop_last())
        }
    }

    /// How many requests to register a morphism generator the history grants.
    pub open spec fn homs_granted(self, ops: Seq<Op>) -> nat
        decreases ops.len(),
    {
        if ops.len() == 0 {
            0
        } else if ops.last() is AddHom && self.run(ops.drop_last()).accepts(ops.last()) {
            self.homs_granted(ops.drop_last()) + 1
        } else {
            self.homs_granted(ops.drop_last())
        }
    }

    /// The term of the last granted request of the history that declares
    /// the composite of `f` followed by `g`; where there is none, what the
    /// presentation held for that pair before the history.
    pub open spec fn last_declared(self, ops: Seq<Op>, f: Name, g: Name) -> Option<HomTerm>
        decreases ops.len(),
    {
        if ops.len() == 0 {
            self.composite_of(f, g)
        } else {
            match ops.last() {
                Op::SetComposite(a, b, h) if a == f && b == g && self.run(ops.drop_last()).accepts(
                    ops.last(),
                ) => Some(h),
                _ => self.last_declared(ops.drop_last(), f, g),
            }
        }
    }

    /// A request keeps a well-formed presentation well-formed, granted or
    /// not.
    pub proof fn lemma_step_wf(self, op: Op)
        requires
            self.wf(),
        ensures
            self.step(op).wf(),
    {
        if self.accepts(op) {
            match op {
                Op::AddOb(x) => self.lemma_with_ob(x),
                Op::AddHom(f, d, c) => self.lemma_with_hom(f, d, c),
                Op::SetComposite(f, g, h) => self.lemma_with_composite(f, g, h),
            }
        }
    }

    /// A history keeps a well-formed presentation well-formed.
    pub proof fn lemma_run_wf(self, ops: Seq<Op>)
        requires
            self.wf(),
        ensures
            self.run(ops).wf(),
        decreases ops.len(),
    {
        if ops.len() > 0 {
            self.lemma_run_wf(ops.drop_last());
            self.run(ops.drop_last()).lemma_step_wf(ops.last());
        }
    }

    /// A refused request leaves the presentation as it was. In particular a
    /// morphism generator with an unregistered endpoint is refused and adds
    /// nothing.
    pub proof fn lemma_refused_changes_nothing(self, op: Op)
        requires
            !self.accepts(op),
        ensures
            self.step(op) == self,
    {
    }

    /// After any history the number of objects has grown by the number of
    /// granted requests to register one, and likewise for morphism
    /// generators.
    pub proof fn lemma_counts_match_grants(self, ops: Seq<Op>)
        ensures
            self.run(ops).obs.len() == self.obs.len() + self.obs_granted(ops),
            self.run(ops).homs.len() == self.homs.len() + self.homs_granted(ops),
        decreases ops.len(),
    {
        if ops.len() > 0 {
            self.lemma_counts_match_grants(ops.drop_last());
        }
    }

    /// After any history a lookup finds exactly the term that was declared
    /// last for that ordered pair.
    pub proof fn lemma_lookup_is_last_declared(self, ops: Seq<Op>, f: Name, g: Name)
        ensures
            self.run(ops).composite_of(f, g) == self.last_declared(ops, f, g),
        decreases ops.len(),
    {
        if ops.len() > 0 {
            self.lemma_lookup_is_last_declared(ops.drop_last(), f, g);
        }
    }

    /// A pair for which the history never asks to declare a composite has
    /// none after the history, if it had none before.
    pub proof fn lemma_undeclared_is_absent(self, ops: Seq<Op>, f: Name, g: Name)
        requires
            self.composite_of(f, g) is None,
            forall|i: int| 0 <= i < ops.len() ==> !(#[trigger] ops[i]).declares(f, g),
        ensures
            self.run(ops).composite_of(f, g) is None,
        decreases ops.len(),
    {
        if ops.len() > 0 {
            let init = ops.drop_last();
            assert forall|i: int| 0 <= i < init.len() implies !(#[trigger] init[i]).declares(
                f,
                g,
            ) by {
                assert(init[i] == ops[i]);
            }
            self.lemma_undeclared_is_absent(init, f, g);
            assert(ops.last() == ops[ops.len() - 1]);
        }
    }

    /// The same objects and the same morphism generators, in whatever
    /// order, and the same declared composites.
    pub open spec fn same_up_to_order(self, other: Presentation) -> bool {
        &&& self.obs.to_set() == other.obs.to_set()
        &&& self.homs.to_set() == other.homs.to_set()
        &&& self.composites == other.composites
    }

    /// Two well-formed presentations that differ only in the order of their
    /// generators have the same number of objects and of morphism
    /// generators, and answer every composite lookup alike.
    pub proof fn lemma_same_up_to_order(self, other: Presentation)
        requires
            self.wf(),
            other.wf(),
            self.same_up_to_order(other),
        ensures
            self.obs.len() == other.obs.len(),
            self.homs.len() == other.homs.len(),
            forall|f: Name, g: Name| self.composite_of(f, g) == other.composite_of(f, g),
    {
        self.obs.unique_seq_to_set();
        other.obs.unique_seq_to_set();
        self.lemma_homs_distinct();
        other.lemma_homs_distinct();
        self.homs.unique_seq_to_set();
        other.homs.unique_seq_to_set();
    }

    /// Where no name is registered twice, no generator is listed twice.
    pub proof fn lemma_homs_distinct(self)
        requires
            self.hom_names().no_duplicates(),
        ensures
            self.homs.no_duplicates(),
    {
        assert forall|i: int, j: int|
            0 <= i < self.homs.len() && 0 <= j < self.homs.len() && i != j implies self.homs[i]
            != self.homs[j] by {
            assert(self.hom_names()[i] == self.homs[i].name);
            assert(self.hom_names()[j] == self.homs[j].name);
        }
    }
}

/// Each ordered pair of morphisms is declared with at most one term.
pub open spec fn single_valued(ops: Seq<Op>) -> bool {
    forall|f: Name, g: Name, h1: HomTerm, h2: HomTerm|
        #![trigger ops.contains(Op::SetComposite(f, g, h1)), ops.contains(Op::SetComposite(f, g, h2))]
        ops.contains(Op::SetComposite(f, g, h1)) && ops.contains(Op::SetComposite(f, g, h2)) ==> h1
            == h2
}

/// A sequence holds what it held before its last item, and that item.
proof fn lemma_contains_last(ops: Seq<Op>, op: Op)
    requires
        ops.len() > 0,
    ensures
        ops.contains(op) <==> ops.drop_last().contains(op) || ops.last() == op,
{
    let init = ops.drop_last();
    if ops.contains(op) {
        let i = ops.index_of(op);
        if i < init.len() {
            assert(init[i] == op);
        }
    }
    if init.contains(op) {
        let i = init.index_of(op);
        assert(ops[i] == op);
    }
    if ops.last() == op {
        assert(ops[ops.len() - 1] == op);
    }
}

/// What a history of granted requests, made of the empty presentation,
/// leaves behind: the objects and generators that it asked for, and for
/// each pair that it declared one of the terms that it declared for it.
pub proof fn lemma_granted_history(ops: Seq<Op>)
    requires
        Presentation::empty().grants_all(ops),
    ensures
        Presentation::empty().run(ops).wf(),
        forall|x: Name|
            #![trigger ops.contains(Op::AddOb(x))]
            #![trigger Presentation::empty().run(ops).obs.contains(x)]
            Presentation::empty().run(ops).obs.contains(x) <==> ops.contains(Op::AddOb(x)),
        forall|s: HomSig|
            #![trigger Presentation::empty().run(ops).homs.contains(s)]
            Presentation::empty().run(ops).homs.contains(s) <==> ops.contains(
                Op::AddHom(s.name, s.dom, s.cod),
            ),
        forall|k: (Name, Name)| #[trigger]
            Presentation::empty().run(ops).composites.contains_key(k) ==> ops.contains(
                Op::SetComposite(k.0, k.1, Presentation::empty().run(ops).composites[k]),
            ),
        forall|f: Name, g: Name, h: HomTerm| #[trigger]
            ops.contains(Op::SetComposite(f, g, h)) ==> Presentation::empty().run(
                ops,
            ).composites.contains_key((f, g)),
    decreases ops.len(),
{
    let p = Presentation::empty().run(ops);
    Presentation::empty().lemma_run_wf(ops);
    if ops.len() > 0 {
        let init = ops.drop_last();
        let last = ops.last();
        let q = Presentation::empty().run(init);
        lemma_granted_history(init);
        assert forall|x: Name|
            #![trigger ops.contains(Op::AddOb(x))]
            #![trigger p.obs.contains(x)]
            p.obs.contains(x) <==> ops.contains(Op::AddOb(x)) by {
            lemma_contains_last(ops, Op::AddOb(x));
            if last is AddOb {
                lemma_pushed_contains(q.obs, last->AddOb_0, x);
            }
        }
        assert forall|s: HomSig| #![trigger p.homs.contains(s)]
            p.homs.contains(s) <==> ops.contains(Op::AddHom(s.name, s.dom, s.cod)) by {
            lemma_contains_last(ops, Op::AddHom(s.name, s.dom, s.cod));
            if let Op::AddHom(f, d, c) = last {
                lemma_pushed_contains(q.homs, HomSig { name: f, dom: d, cod: c }, s);
            }
        }
        assert forall|k: (Name, Name)| #[trigger] p.composites.contains_key(k) implies ops.contains(
            Op::SetComposite(k.0, k.1, p.composites[k]),
        ) by {
            lemma_contains_last(ops, Op::SetComposite(k.0, k.1, p.composites[k]));
        }
        assert forall|f: Name, g: Name, h: HomTerm| #[trigger]
            ops.contains(Op::SetComposite(f, g, h)) implies p.composites.contains_key((f, g)) by {
            lemma_contains_last(ops, Op::SetComposite(f, g, h));
        }
    }
}

/// A sequence with one more item holds that item and what it held before.
proof fn lemma_pushed_contains<A>(s: Seq<A>, a: A, b: A)
    ensures
        s.push(a).contains(b) <==> s.contains(b) || a == b,
{
    let t = s.push(a);
    if t.contains(b) {
        let i = t.index_of(b);
        if i < s.len() {
            assert(s[i] == b);
        }
    }
    if s.contains(b) {
        let i = s.index_of(b);
        assert(t[i] == b);
    }
    if a == b {
        assert(t[s.len() as int] == b);
    }
}

/// The order of the requests does not matter. Two histories that are made
/// of the same requests, each granting all of them when made of the empty
/// presentation, and that declare at most one term for each ordered pair,
/// leave presentations that differ only in the order of their generators:
/// they have the same number of objects and of morphism generators, and
/// answer every composite lookup alike.
pub proof fn lemma_order_invariance(first: Seq<Op>, second: Seq<Op>)
    requires
        Presentation::empty().grants_all(first),
        Presentation::empty().grants_all(second),
        first.to_set() == second.to_set(),
        single_valued(first),
    ensures
        Presentation::empty().run(first).same_up_to_order(Presentation::empty().run(second)),
        Presentation::empty().run(first).obs.len() == Presentation::empty().run(second).obs.len(),
        Presentation::empty().run(first).homs.len() == Presentation::empty().run(
            second,
        ).homs.len(),
        forall|f: Name, g: Name|
            Presentation::empty().run(first).composite_of(f, g) == Presentation::empty().run(
                second,
            ).composite_of(f, g),
{
    let p = Presentation::empty().run(first);
    let q = Presentation::empty().run(second);
    lemma_granted_history(first);
    lemma_granted_history(second);
    assert forall|op: Op| first.contains(op) <==> second.contains(op) by {
        assert(first.to_set().contains(op) == first.contains(op));
        assert(second.to_set().contains(op) == second.contains(op));
    }
    assert(p.obs.to_set() =~= q.obs.to_set());
    assert(p.homs.to_set() =~= q.homs.to_set());
    assert forall|k: (Name, Name)| p.composites.contains_key(k) implies q.composites.contains_key(k)
        && q.composites[k] == p.composites[k] by {
        assert(first.contains(Op::SetComposite(k.0, k.1, p.composites[k])));
        assert(second.contains(Op::SetComposite(k.0, k.1, p.composites[k])));
        assert(q.composites.contains_key((k.0, k.1)));
        assert(first.contains(Op::SetComposite(k.0, k.1, q.composites[k])));
    }
    assert forall|k: (Name, Name)| q.composites.contains_key(k) implies p.composites.contains_key(
        k,
    ) by {
        assert(second.contains(Op::SetComposite(k.0, k.1, q.composites[k])));
        assert(first.contains(Op::SetComposite(k.0, k.1, q.composites[k])));
        assert(p.composites.contains_key((k.0, k.1)));
    }
    assert(p.composites =~= q.composites);
    p.lemma_same_up_to_order(q);
}

} // verus!
