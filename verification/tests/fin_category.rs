use catlog::dbl::theory::DiscreteDblTheory;
use catlog::one::fin_category::{CategoryError, FinHom, UstrFinCategory};
use ustr::{ustr, Ustr};

fn signed() -> UstrFinCategory {
    let mut sgn = UstrFinCategory::new();
    let (x, n) = (ustr("object"), ustr("negative"));
    assert_eq!(sgn.add_ob_generator(x), Ok(()));
    assert_eq!(sgn.add_hom_generator(n, x, x), Ok(()));
    sgn
}

fn span() -> UstrFinCategory {
    let mut cat = UstrFinCategory::new();
    let (a, b, c) = (ustr("a"), ustr("b"), ustr("c"));
    assert_eq!(cat.add_ob_generator(a), Ok(()));
    assert_eq!(cat.add_ob_generator(b), Ok(()));
    assert_eq!(cat.add_ob_generator(c), Ok(()));
    assert_eq!(cat.add_hom_generator(ustr("f"), a, b), Ok(()));
    assert_eq!(cat.add_hom_generator(ustr("g"), b, c), Ok(()));
    assert_eq!(cat.add_hom_generator(ustr("h"), a, c), Ok(()));
    assert_eq!(cat.add_hom_generator(ustr("k"), a, c), Ok(()));
    assert_eq!(cat.add_hom_generator(ustr("e"), a, a), Ok(()));
    cat
}

#[test]
fn new_category_is_empty() {
    let cat = UstrFinCategory::new();
    assert_eq!(cat.basic_ob_types(), Vec::<Ustr>::new());
    assert_eq!(cat.basic_mor_types(), Vec::<Ustr>::new());
    assert!(!cat.has_ob(ustr("object")));
    assert!(!cat.has_hom(ustr("negative")));
    assert_eq!(cat.composite_of(ustr("negative"), ustr("negative")), None);
}

#[test]
fn default_category_is_empty() {
    let cat: UstrFinCategory = Default::default();
    assert_eq!(cat.basic_ob_types().len(), 0);
    assert_eq!(cat.basic_mor_types().len(), 0);
}

#[test]
fn objects_come_out_in_insertion_order() {
    let mut cat = UstrFinCategory::new();
    assert_eq!(cat.add_ob_generator(ustr("z")), Ok(()));
    assert_eq!(cat.add_ob_generator(ustr("a")), Ok(()));
    assert_eq!(cat.add_ob_generator(ustr("m")), Ok(()));
    assert_eq!(cat.basic_ob_types(), vec![ustr("z"), ustr("a"), ustr("m")]);
}

#[test]
fn morphisms_come_out_in_insertion_order() {
    let cat = span();
    assert_eq!(
        cat.basic_mor_types(),
        vec![ustr("f"), ustr("g"), ustr("h"), ustr("k"), ustr("e")]
    );
}

#[test]
fn a_name_is_found_through_any_handle_of_the_same_text() {
    let mut cat = UstrFinCategory::new();
    let text = String::from("obj") + "ect";
    assert_eq!(cat.add_ob_generator(ustr(&text)), Ok(()));
    assert!(cat.has_ob(ustr("object")));
    assert!(!cat.has_ob(ustr("objec")));
    assert!(!cat.has_ob(ustr("")));
    assert_eq!(cat.basic_ob_types()[0].as_str(), "object");
}

#[test]
fn duplicate_object_is_refused() {
    let mut cat = UstrFinCategory::new();
    assert_eq!(cat.add_ob_generator(ustr("object")), Ok(()));
    assert_eq!(cat.add_ob_generator(ustr("object")), Err(CategoryError::DuplicateObject));
    assert_eq!(cat.basic_ob_types(), vec![ustr("object")]);
}

#[test]
fn duplicate_morphism_is_refused() {
    let mut cat = signed();
    let (x, n) = (ustr("object"), ustr("negative"));
    assert_eq!(cat.add_ob_generator(ustr("other")), Ok(()));
    assert_eq!(cat.add_hom_generator(n, x, ustr("other")), Err(CategoryError::DuplicateMorphism));
    assert_eq!(cat.basic_mor_types(), vec![n]);
    assert_eq!(cat.cod(n), Some(x));
}

#[test]
fn unknown_domain_is_refused() {
    let mut cat = UstrFinCategory::new();
    assert_eq!(cat.add_ob_generator(ustr("object")), Ok(()));
    assert_eq!(
        cat.add_hom_generator(ustr("bad"), ustr("ghost"), ustr("object")),
        Err(CategoryError::UnknownObject)
    );
    assert_eq!(cat.basic_mor_types().iter().count(), 0);
    assert!(!cat.has_hom(ustr("bad")));
    assert_eq!(cat.basic_ob_types(), vec![ustr("object")]);
}

#[test]
fn unknown_codomain_is_refused() {
    let mut cat = signed();
    assert_eq!(
        cat.add_hom_generator(ustr("bad"), ustr("object"), ustr("ghost")),
        Err(CategoryError::UnknownObject)
    );
    assert_eq!(cat.basic_mor_types().iter().count(), 1);
    assert!(!cat.has_hom(ustr("bad")));
}

#[test]
fn unknown_object_is_reported_before_duplicate_morphism() {
    let mut cat = signed();
    assert_eq!(
        cat.add_hom_generator(ustr("negative"), ustr("ghost"), ustr("object")),
        Err(CategoryError::UnknownObject)
    );
    assert_eq!(cat.basic_mor_types().iter().count(), 1);
}

#[test]
fn object_and_morphism_names_do_not_clash() {
    let mut cat = UstrFinCategory::new();
    let x = ustr("same");
    assert_eq!(cat.add_ob_generator(x), Ok(()));
    assert_eq!(cat.add_hom_generator(x, x, x), Ok(()));
    assert!(cat.has_ob(x));
    assert!(cat.has_hom(x));
}

#[test]
fn endpoints_of_generators() {
    let cat = span();
    assert_eq!(cat.dom(ustr("f")), Some(ustr("a")));
    assert_eq!(cat.cod(ustr("f")), Some(ustr("b")));
    assert_eq!(cat.dom(ustr("g")), Some(ustr("b")));
    assert_eq!(cat.cod(ustr("g")), Some(ustr("c")));
    assert_eq!(cat.dom(ustr("nothing")), None);
    assert_eq!(cat.cod(ustr("nothing")), None);
    assert_eq!(cat.dom(ustr("a")), None);
}

#[test]
fn composite_is_stored_and_found() {
    let mut cat = span();
    let (f, g, h) = (ustr("f"), ustr("g"), ustr("h"));
    assert_eq!(cat.composite_of(f, g), None);
    assert_eq!(cat.set_composite(f, g, FinHom::Generator(h)), Ok(()));
    assert_eq!(cat.composite_of(f, g), Some(FinHom::Generator(h)));
    assert_eq!(cat.composite_of(g, f), None);
    assert_eq!(cat.composite_of(f, f), None);
    assert_eq!(cat.composite_of(f, h), None);
}

#[test]
fn last_declared_composite_wins() {
    let mut cat = span();
    let (f, g) = (ustr("f"), ustr("g"));
    assert_eq!(cat.set_composite(f, g, FinHom::Generator(ustr("h"))), Ok(()));
    assert_eq!(cat.set_composite(f, g, FinHom::Generator(ustr("k"))), Ok(()));
    assert_eq!(cat.composite_of(f, g), Some(FinHom::Generator(ustr("k"))));
    assert_eq!(cat.set_composite(f, g, FinHom::Generator(ustr("h"))), Ok(()));
    assert_eq!(cat.composite_of(f, g), Some(FinHom::Generator(ustr("h"))));
}

#[test]
fn declaring_one_composite_leaves_the_others() {
    let mut cat = span();
    let (a, e, f, g) = (ustr("a"), ustr("e"), ustr("f"), ustr("g"));
    assert_eq!(cat.set_composite(e, e, FinHom::Id(a)), Ok(()));
    assert_eq!(cat.set_composite(f, g, FinHom::Generator(ustr("h"))), Ok(()));
    assert_eq!(cat.set_composite(e, f, FinHom::Generator(f)), Ok(()));
    assert_eq!(cat.composite_of(e, e), Some(FinHom::Id(a)));
    assert_eq!(cat.composite_of(f, g), Some(FinHom::Generator(ustr("h"))));
    assert_eq!(cat.composite_of(e, f), Some(FinHom::Generator(f)));
    assert_eq!(cat.set_composite(e, e, FinHom::Generator(e)), Ok(()));
    assert_eq!(cat.composite_of(e, e), Some(FinHom::Generator(e)));
    assert_eq!(cat.composite_of(f, g), Some(FinHom::Generator(ustr("h"))));
    assert_eq!(cat.composite_of(e, f), Some(FinHom::Generator(f)));
}

#[test]
fn no_closure_is_computed() {
    let mut cat = signed();
    let (x, n) = (ustr("object"), ustr("negative"));
    assert_eq!(cat.add_hom_generator(ustr("positive"), x, x), Ok(()));
    assert_eq!(cat.set_composite(n, n, FinHom::Generator(ustr("positive"))), Ok(()));
    assert_eq!(cat.composite_of(ustr("positive"), n), None);
    assert_eq!(cat.composite_of(n, ustr("positive")), None);
    assert_eq!(cat.basic_mor_types().len(), 2);
}

#[test]
fn composite_of_unregistered_morphism_is_a_mismatch() {
    let mut cat = span();
    let (f, g, h) = (ustr("f"), ustr("g"), ustr("h"));
    assert_eq!(
        cat.set_composite(ustr("nothing"), g, FinHom::Generator(h)),
        Err(CategoryError::EndpointMismatch)
    );
    assert_eq!(
        cat.set_composite(f, ustr("nothing"), FinHom::Generator(h)),
        Err(CategoryError::EndpointMismatch)
    );
    assert_eq!(cat.composite_of(ustr("nothing"), g), None);
    assert_eq!(cat.composite_of(f, ustr("nothing")), None);
}

#[test]
fn composite_of_morphisms_that_do_not_meet_is_a_mismatch() {
    let mut cat = span();
    let (f, g) = (ustr("f"), ustr("g"));
    assert_eq!(
        cat.set_composite(g, f, FinHom::Generator(ustr("h"))),
        Err(CategoryError::EndpointMismatch)
    );
    assert_eq!(cat.set_composite(f, f, FinHom::Generator(f)), Err(CategoryError::EndpointMismatch));
    assert_eq!(cat.composite_of(g, f), None);
    assert_eq!(cat.composite_of(f, f), None);
}

#[test]
fn composite_with_a_term_of_other_endpoints_is_a_mismatch() {
    let mut cat = span();
    let (a, c, f, g) = (ustr("a"), ustr("c"), ustr("f"), ustr("g"));
    assert_eq!(cat.set_composite(f, g, FinHom::Generator(f)), Err(CategoryError::EndpointMismatch));
    assert_eq!(cat.set_composite(f, g, FinHom::Generator(g)), Err(CategoryError::EndpointMismatch));
    assert_eq!(
        cat.set_composite(f, g, FinHom::Generator(ustr("nothing"))),
        Err(CategoryError::EndpointMismatch)
    );
    assert_eq!(cat.set_composite(f, g, FinHom::Id(a)), Err(CategoryError::EndpointMismatch));
    assert_eq!(cat.set_composite(f, g, FinHom::Id(c)), Err(CategoryError::EndpointMismatch));
    assert_eq!(
        cat.set_composite(ustr("e"), ustr("e"), FinHom::Id(ustr("ghost"))),
        Err(CategoryError::EndpointMismatch)
    );
    assert_eq!(cat.composite_of(f, g), None);
    assert_eq!(cat.composite_of(ustr("e"), ustr("e")), None);
}

#[test]
fn refused_composite_keeps_the_earlier_one() {
    let mut cat = span();
    let (f, g, h) = (ustr("f"), ustr("g"), ustr("h"));
    assert_eq!(cat.set_composite(f, g, FinHom::Generator(h)), Ok(()));
    assert_eq!(cat.set_composite(f, g, FinHom::Generator(f)), Err(CategoryError::EndpointMismatch));
    assert_eq!(cat.composite_of(f, g), Some(FinHom::Generator(h)));
}

#[test]
fn composable_agrees_with_set_composite() {
    let cat = span();
    let (a, e, f, g) = (ustr("a"), ustr("e"), ustr("f"), ustr("g"));
    assert!(cat.composable(f, g, FinHom::Generator(ustr("h"))));
    assert!(cat.composable(f, g, FinHom::Generator(ustr("k"))));
    assert!(cat.composable(e, e, FinHom::Id(a)));
    assert!(cat.composable(e, e, FinHom::Generator(e)));
    assert!(cat.composable(e, f, FinHom::Generator(f)));
    assert!(!cat.composable(f, g, FinHom::Id(a)));
    assert!(!cat.composable(g, f, FinHom::Generator(ustr("h"))));
    assert!(!cat.composable(f, g, FinHom::Generator(ustr("nothing"))));
    assert!(!cat.composable(ustr("nothing"), g, FinHom::Generator(ustr("h"))));
    assert!(!cat.composable(e, e, FinHom::Id(ustr("b"))));
}

#[test]
fn counts_equal_the_number_of_granted_requests() {
    let mut cat = UstrFinCategory::new();
    let names = ["a", "b", "a", "c", "b", "d", "a"];
    let mut granted = 0;
    for name in names {
        if cat.add_ob_generator(ustr(name)).is_ok() {
            granted += 1;
        }
    }
    assert_eq!(granted, 4);
    assert_eq!(cat.basic_ob_types().iter().count(), granted);

    let requests = [("f", "a", "b"), ("f", "b", "c"), ("g", "a", "zz"), ("g", "b", "c"), ("h", "zz", "a")];
    let mut granted = 0;
    for (f, d, c) in requests {
        if cat.add_hom_generator(ustr(f), ustr(d), ustr(c)).is_ok() {
            granted += 1;
        }
    }
    assert_eq!(granted, 2);
    assert_eq!(cat.basic_mor_types().iter().count(), granted);
    assert_eq!(cat.basic_ob_types().iter().count(), 4);
}

#[test]
fn order_of_registration_does_not_change_counts_or_lookups() {
    let (a, b, c) = (ustr("a"), ustr("b"), ustr("c"));
    let (f, g, h) = (ustr("f"), ustr("g"), ustr("h"));

    let mut one = UstrFinCategory::new();
    assert_eq!(one.add_ob_generator(a), Ok(()));
    assert_eq!(one.add_ob_generator(b), Ok(()));
    assert_eq!(one.add_ob_generator(c), Ok(()));
    assert_eq!(one.add_hom_generator(f, a, b), Ok(()));
    assert_eq!(one.add_hom_generator(g, b, c), Ok(()));
    assert_eq!(one.add_hom_generator(h, a, c), Ok(()));
    assert_eq!(one.set_composite(f, g, FinHom::Generator(h)), Ok(()));

    let mut two = UstrFinCategory::new();
    assert_eq!(two.add_ob_generator(c), Ok(()));
    assert_eq!(two.add_ob_generator(a), Ok(()));
    assert_eq!(two.add_hom_generator(h, a, c), Ok(()));
    assert_eq!(two.add_ob_generator(b), Ok(()));
    assert_eq!(two.add_hom_generator(g, b, c), Ok(()));
    assert_eq!(two.add_hom_generator(f, a, b), Ok(()));
    assert_eq!(two.set_composite(f, g, FinHom::Generator(h)), Ok(()));

    assert_eq!(one.basic_ob_types().len(), 3);
    assert_eq!(two.basic_ob_types().len(), 3);
    assert_eq!(one.basic_mor_types().len(), 3);
    assert_eq!(two.basic_mor_types().len(), 3);
    assert_eq!(one.basic_ob_types(), vec![a, b, c]);
    assert_eq!(two.basic_ob_types(), vec![c, a, b]);
    assert_eq!(two.basic_mor_types(), vec![h, g, f]);
    for x in [f, g, h] {
        for y in [f, g, h] {
            assert_eq!(one.composite_of(x, y), two.composite_of(x, y));
        }
        assert_eq!(one.dom(x), two.dom(x));
        assert_eq!(one.cod(x), two.cod(x));
    }
    assert_eq!(two.composite_of(f, g), Some(FinHom::Generator(h)));
}

#[test]
fn theory_delegates_to_its_category() {
    let mut cat = span();
    let (e, a) = (ustr("e"), ustr("a"));
    assert_eq!(cat.set_composite(e, e, FinHom::Id(a)), Ok(()));
    let obs = cat.basic_ob_types();
    let mors = cat.basic_mor_types();
    let th = DiscreteDblTheory::from(cat);
    assert_eq!(th.basic_ob_types(), obs);
    assert_eq!(th.basic_mor_types(), mors);
    assert_eq!(th.basic_ob_types().iter().count(), 3);
    assert_eq!(th.basic_mor_types().iter().count(), 5);
    assert_eq!(th.category().composite_of(e, e), Some(FinHom::Id(a)));
}

#[test]
fn identity_and_generator_terms_differ() {
    let x = ustr("same");
    assert_ne!(FinHom::Id(x), FinHom::Generator(x));
    assert_eq!(FinHom::Id(x), FinHom::Id(ustr("same")));
    assert_ne!(FinHom::Id(x), FinHom::Id(ustr("other")));
}
