use trivial_i18n::catalog::{build_catalog, Catalog, LanguageSelector};
use trivial_i18n::format::{ArgList, Args1, Args2, ArgSource, NoArgs};
use trivial_i18n::registry::Variant;

fn variant(name: &str, path: &str, fallbacks: &[&str], props: &[(&str, &str)]) -> Variant {
    Variant {
        name: name.to_string(),
        path: path.to_string(),
        fallbacks: fallbacks.iter().map(|f| f.to_string()).collect(),
        properties: props.iter().map(|(k, v)| (k.to_string(), v.to_string())).collect(),
        segments: Vec::new(),
    }
}

fn test_variants() -> Vec<Variant> {
    vec![
        variant(
            "English",
            "tests/english.properties",
            &[],
            &[
                ("COLOR", "Colour"),
                ("STREET", "Street"),
                ("ENG_ONLY", "Only in english"),
                ("FORMAT_GER_ONLY", "Test 123 Test"),
                ("TWO_PARAM_REVERSE", "Test1: {1} Test2: {0}"),
                ("TWO_PARAM_SKIP", "Test1: {1} Test4: {4}"),
                ("JAPAN_MOON_RUNES", "ABC„ÉÜ„Ç£„Éº„Éù„ÉÉ„ÉàABC"),
                ("ESCAPE_CHARACTERS", "\"\"''&%/=?)(&%/))(&&¬ßE&)   \0"),
                ("_bad_DOT_key", "123"),
                ("_123", "456"),
                ("_123_0", "678"),
                ("_123_1", "123"),
                ("ùïä", "ùïä"),
                ("___0", "üòÄ"),
                ("__", "_"),
            ],
        ),
        variant("UsaEnglish", "tests/us_english.properties", &[], &[("COLOR", "Color")]),
        variant(
            "German",
            "tests/german.properties",
            &[],
            &[
                ("COLOR", "Farbe"),
                ("STREET", "Stra√üe"),
                ("FORMAT_GER_ONLY", "Test {0} Test"),
            ],
        ),
        variant(
            "SwissGerman",
            "tests/swiss_german.properties",
            &["German"],
            &[("STREET", "Strasse")],
        ),
    ]
}

fn args1(a: &str) -> Args1 {
    Args1 { v0: a.to_string() }
}

fn args2(a: &str, b: &str) -> Args2 {
    Args2 { v0: a.to_string(), v1: b.to_string() }
}

fn arglist(items: &[&str]) -> ArgList {
    ArgList { items: items.iter().map(|s| s.to_string()).collect() }
}

fn fmt<A: ArgSource>(c: &Catalog, sel: &LanguageSelector, key: &str, args: &A) -> String {
    c.get(key).unwrap().format(sel, args)
}

fn txt<'a>(c: &'a Catalog, sel: &LanguageSelector, key: &str) -> &'a str {
    c.get(key).unwrap().as_str(sel)
}

#[test]
pub fn test_test() {
    let catalog = build_catalog(test_variants()).unwrap();
    let mut sel = LanguageSelector::new();

    sel.select(&catalog.names, "English");
    assert_eq!("Colour", txt(&catalog, &sel, "COLOR"));
    assert_eq!("Street", txt(&catalog, &sel, "STREET"));
    assert_eq!("Only in english", txt(&catalog, &sel, "ENG_ONLY"));

    assert_eq!("Test 123 Test", fmt(&catalog, &sel, "FORMAT_GER_ONLY", &args1("beep")));
    assert_eq!("Test 123 Test", fmt(&catalog, &sel, "FORMAT_GER_ONLY", &args1("beep")));
    assert_eq!("Test 123 Test", fmt(&catalog, &sel, "FORMAT_GER_ONLY", &arglist(&["beep"])));
    assert_eq!("Test 123 Test", fmt(&catalog, &sel, "FORMAT_GER_ONLY", &arglist(&["beep"])));
    assert_eq!("Test 123 Test", fmt(&catalog, &sel, "FORMAT_GER_ONLY", &arglist(&["beep", "two"])));
    assert_eq!("Test 123 Test", txt(&catalog, &sel, "FORMAT_GER_ONLY"));

    assert_eq!("Test1: bop Test2: beep", fmt(&catalog, &sel, "TWO_PARAM_REVERSE", &args2("beep", "bop")));
    assert_eq!("Test1: bop Test2: beep", fmt(&catalog, &sel, "TWO_PARAM_REVERSE", &args2("beep", "bop")));
    assert_eq!("Test1: bop Test2: beep", fmt(&catalog, &sel, "TWO_PARAM_REVERSE", &arglist(&["beep", "bop"])));
    assert_eq!("Test1: bop Test2: beep", fmt(&catalog, &sel, "TWO_PARAM_REVERSE", &arglist(&["beep", "bop"])));
    assert_eq!("Test1: two Test2: beep", fmt(&catalog, &sel, "TWO_PARAM_REVERSE", &arglist(&["beep", "two", "_ignored"])));
    assert_eq!("Test1:  Test2: beep", fmt(&catalog, &sel, "TWO_PARAM_REVERSE", &arglist(&["beep"])));
    assert_eq!("Test1: {1} Test2: {0}", txt(&catalog, &sel, "TWO_PARAM_REVERSE"));

    assert_eq!("Test1: beep Test4: bap", fmt(&catalog, &sel, "TWO_PARAM_SKIP", &arglist(&["_ignored", "beep", "_ignored", "_ignored", "bap"])));
    assert_eq!("Test1: beep Test4: bap", fmt(&catalog, &sel, "TWO_PARAM_SKIP", &arglist(&["_ignored", "beep", "_ignored", "_ignored", "bap"])));
    assert_eq!("Test1: beep Test4: bap", fmt(&catalog, &sel, "TWO_PARAM_SKIP", &arglist(&["_ignored", "beep", "_ignored", "_ignored", "bap"])));
    assert_eq!("Test1: beep Test4: bap", fmt(&catalog, &sel, "TWO_PARAM_SKIP", &arglist(&["_ignored", "beep", "_ignored", "_ignored", "bap"])));
    assert_eq!("Test1: beep Test4: bap", fmt(&catalog, &sel, "TWO_PARAM_SKIP", &arglist(&["_ignored", "beep", "_ignored", "_ignored", "bap"])));
    assert_eq!("Test1:  Test4: ", fmt(&catalog, &sel, "TWO_PARAM_SKIP", &arglist(&["beep"])));
    assert_eq!("Test1: {1} Test4: {4}", txt(&catalog, &sel, "TWO_PARAM_SKIP"));

    assert_eq!("ABC„ÉÜ„Ç£„Éº„Éù„ÉÉ„ÉàABC", txt(&catalog, &sel, "JAPAN_MOON_RUNES"));
    assert_eq!("\"\"''&%/=?)(&%/))(&&¬ßE&)   \0", txt(&catalog, &sel, "ESCAPE_CHARACTERS"));

    assert_eq!("123", txt(&catalog, &sel, "_bad_DOT_key"));
    assert_eq!("456", txt(&catalog, &sel, "_123"));
    assert_eq!("678", txt(&catalog, &sel, "_123_0"));
    assert_eq!("123", txt(&catalog, &sel, "_123_1"));
    assert_eq!("ùïä", txt(&catalog, &sel, "ùïä"));
    assert_eq!("üòÄ", txt(&catalog, &sel, "___0"));
    assert_eq!("_", txt(&catalog, &sel, "__"));

    sel.select(&catalog.names, "UsaEnglish");
    assert_eq!("Color", txt(&catalog, &sel, "COLOR"));
    assert_eq!("Street", txt(&catalog, &sel, "STREET"));
    assert_eq!("Only in english", txt(&catalog, &sel, "ENG_ONLY"));

    assert_eq!("Test1: bop Test2: beep", fmt(&catalog, &sel, "TWO_PARAM_REVERSE", &args2("beep", "bop")));
    assert_eq!("Test1: bop Test2: beep", fmt(&catalog, &sel, "TWO_PARAM_REVERSE", &args2("beep", "bop")));
    assert_eq!("Test1: bop Test2: beep", fmt(&catalog, &sel, "TWO_PARAM_REVERSE", &arglist(&["beep", "bop"])));
    assert_eq!("Test1: bop Test2: beep", fmt(&catalog, &sel, "TWO_PARAM_REVERSE", &arglist(&["beep", "bop"])));
    assert_eq!("Test1: two Test2: beep", fmt(&catalog, &sel, "TWO_PARAM_REVERSE", &arglist(&["beep", "two", "_ignored"])));
    assert_eq!("Test1:  Test2: beep", fmt(&catalog, &sel, "TWO_PARAM_REVERSE", &arglist(&["beep"])));
    assert_eq!("Test1: {1} Test2: {0}", txt(&catalog, &sel, "TWO_PARAM_REVERSE"));

    assert_eq!("Test1: bop Test2: beep", fmt(&catalog, &sel, "TWO_PARAM_REVERSE", &args2("beep", "bop")));
    assert_eq!("Test1: bop Test2: beep", fmt(&catalog, &sel, "TWO_PARAM_REVERSE", &args2("beep", "bop")));
    assert_eq!("Test1: bop Test2: beep", fmt(&catalog, &sel, "TWO_PARAM_REVERSE", &arglist(&["beep", "bop"])));
    assert_eq!("Test1: bop Test2: beep", fmt(&catalog, &sel, "TWO_PARAM_REVERSE", &arglist(&["beep", "bop"])));
    assert_eq!("Test1: two Test2: beep", fmt(&catalog, &sel, "TWO_PARAM_REVERSE", &arglist(&["beep", "two", "_ignored"])));
    assert_eq!("Test1:  Test2: beep", fmt(&catalog, &sel, "TWO_PARAM_REVERSE", &arglist(&["beep"])));
    assert_eq!("Test1: {1} Test2: {0}", txt(&catalog, &sel, "TWO_PARAM_REVERSE"));

    assert_eq!("Test1: beep Test4: bap", fmt(&catalog, &sel, "TWO_PARAM_SKIP", &arglist(&["_ignored", "beep", "_ignored", "_ignored", "bap"])));
    assert_eq!("Test1: beep Test4: bap", fmt(&catalog, &sel, "TWO_PARAM_SKIP", &arglist(&["_ignored", "beep", "_ignored", "_ignored", "bap"])));
    assert_eq!("Test1: beep Test4: bap", fmt(&catalog, &sel, "TWO_PARAM_SKIP", &arglist(&["_ignored", "beep", "_ignored", "_ignored", "bap"])));
    assert_eq!("Test1: beep Test4: bap", fmt(&catalog, &sel, "TWO_PARAM_SKIP", &arglist(&["_ignored", "beep", "_ignored", "_ignored", "bap"])));
    assert_eq!("Test1: beep Test4: bap", fmt(&catalog, &sel, "TWO_PARAM_SKIP", &arglist(&["_ignored", "beep", "_ignored", "_ignored", "bap"])));
    assert_eq!("Test1:  Test4: ", fmt(&catalog, &sel, "TWO_PARAM_SKIP", &arglist(&["beep"])));
    assert_eq!("Test1: {1} Test4: {4}", txt(&catalog, &sel, "TWO_PARAM_SKIP"));

    sel.select(&catalog.names, "German");
    assert_eq!("Farbe", txt(&catalog, &sel, "COLOR"));
    assert_eq!("Stra√üe", txt(&catalog, &sel, "STREET"));
    assert_eq!("Only in english", txt(&catalog, &sel, "ENG_ONLY"));

    assert_eq!("Test beep Test", fmt(&catalog, &sel, "FORMAT_GER_ONLY", &args1("beep")));
    assert_eq!("Test bop Test", fmt(&catalog, &sel, "FORMAT_GER_ONLY", &args1("bop")));
    assert_eq!("Test beep Test", fmt(&catalog, &sel, "FORMAT_GER_ONLY", &arglist(&["beep"])));
    assert_eq!("Test bop Test", fmt(&catalog, &sel, "FORMAT_GER_ONLY", &arglist(&["bop"])));
    assert_eq!("Test mop Test", fmt(&catalog, &sel, "FORMAT_GER_ONLY", &arglist(&["mop", "two"])));
    assert_eq!("Test {0} Test", txt(&catalog, &sel, "FORMAT_GER_ONLY"));

    assert_eq!("Test1: bop Test2: beep", fmt(&catalog, &sel, "TWO_PARAM_REVERSE", &args2("beep", "bop")));
    assert_eq!("Test1: bop Test2: beep", fmt(&catalog, &sel, "TWO_PARAM_REVERSE", &args2("beep", "bop")));
    assert_eq!("Test1: bop Test2: beep", fmt(&catalog, &sel, "TWO_PARAM_REVERSE", &arglist(&["beep", "bop"])));
    assert_eq!("Test1: bop Test2: beep", fmt(&catalog, &sel, "TWO_PARAM_REVERSE", &arglist(&["beep", "bop"])));
    assert_eq!("Test1: two Test2: beep", fmt(&catalog, &sel, "TWO_PARAM_REVERSE", &arglist(&["beep", "two", "_ignored"])));
    assert_eq!("Test1:  Test2: beep", fmt(&catalog, &sel, "TWO_PARAM_REVERSE", &arglist(&["beep"])));
    assert_eq!("Test1: {1} Test2: {0}", txt(&catalog, &sel, "TWO_PARAM_REVERSE"));

    assert_eq!("Test1: beep Test4: bap", fmt(&catalog, &sel, "TWO_PARAM_SKIP", &arglist(&["_ignored", "beep", "_ignored", "_ignored", "bap"])));
    assert_eq!("Test1: beep Test4: bap", fmt(&catalog, &sel, "TWO_PARAM_SKIP", &arglist(&["_ignored", "beep", "_ignored", "_ignored", "bap"])));
    assert_eq!("Test1: beep Test4: bap", fmt(&catalog, &sel, "TWO_PARAM_SKIP", &arglist(&["_ignored", "beep", "_ignored", "_ignored", "bap"])));
    assert_eq!("Test1: beep Test4: bap", fmt(&catalog, &sel, "TWO_PARAM_SKIP", &arglist(&["_ignored", "beep", "_ignored", "_ignored", "bap"])));
    assert_eq!("Test1: beep Test4: bap", fmt(&catalog, &sel, "TWO_PARAM_SKIP", &arglist(&["_ignored", "beep", "_ignored", "_ignored", "bap"])));
    assert_eq!("Test1:  Test4: ", fmt(&catalog, &sel, "TWO_PARAM_SKIP", &arglist(&["beep"])));
    assert_eq!("Test1: {1} Test4: {4}", txt(&catalog, &sel, "TWO_PARAM_SKIP"));

    sel.select(&catalog.names, "SwissGerman");
    assert_eq!("Farbe", txt(&catalog, &sel, "COLOR"));
    assert_eq!("Strasse", txt(&catalog, &sel, "STREET"));
    assert_eq!("Only in english", txt(&catalog, &sel, "ENG_ONLY"));

    assert_eq!("Test1: bop Test2: beep", fmt(&catalog, &sel, "TWO_PARAM_REVERSE", &args2("beep", "bop")));
    assert_eq!("Test1: bop Test2: beep", fmt(&catalog, &sel, "TWO_PARAM_REVERSE", &args2("beep", "bop")));
    assert_eq!("Test1: bop Test2: beep", fmt(&catalog, &sel, "TWO_PARAM_REVERSE", &arglist(&["beep", "bop"])));
    assert_eq!("Test1: bop Test2: beep", fmt(&catalog, &sel, "TWO_PARAM_REVERSE", &arglist(&["beep", "bop"])));
    assert_eq!("Test1: two Test2: beep", fmt(&catalog, &sel, "TWO_PARAM_REVERSE", &arglist(&["beep", "two", "_ignored"])));
    assert_eq!("Test1:  Test2: beep", fmt(&catalog, &sel, "TWO_PARAM_REVERSE", &arglist(&["beep"])));
    assert_eq!("Test1: {1} Test2: {0}", txt(&catalog, &sel, "TWO_PARAM_REVERSE"));

    assert_eq!("Test1: beep Test4: bap", fmt(&catalog, &sel, "TWO_PARAM_SKIP", &arglist(&["_ignored", "beep", "_ignored", "_ignored", "bap"])));
    assert_eq!("Test1: beep Test4: bap", fmt(&catalog, &sel, "TWO_PARAM_SKIP", &arglist(&["_ignored", "beep", "_ignored", "_ignored", "bap"])));
    assert_eq!("Test1: beep Test4: bap", fmt(&catalog, &sel, "TWO_PARAM_SKIP", &arglist(&["_ignored", "beep", "_ignored", "_ignored", "bap"])));
    assert_eq!("Test1: beep Test4: bap", fmt(&catalog, &sel, "TWO_PARAM_SKIP", &arglist(&["_ignored", "beep", "_ignored", "_ignored", "bap"])));
    assert_eq!("Test1: beep Test4: bap", fmt(&catalog, &sel, "TWO_PARAM_SKIP", &arglist(&["_ignored", "beep", "_ignored", "_ignored", "bap"])));
    assert_eq!("Test1:  Test4: ", fmt(&catalog, &sel, "TWO_PARAM_SKIP", &arglist(&["beep"])));
    assert_eq!("Test1: {1} Test4: {4}", txt(&catalog, &sel, "TWO_PARAM_SKIP"));

    sel.select(&catalog.names, "Other");
    assert_eq!("Colour", txt(&catalog, &sel, "COLOR"));
    assert_eq!("Street", txt(&catalog, &sel, "STREET"));
    assert_eq!("Only in english", txt(&catalog, &sel, "ENG_ONLY"));

    assert_eq!("Test1: bop Test2: beep", fmt(&catalog, &sel, "TWO_PARAM_REVERSE", &args2("beep", "bop")));
    assert_eq!("Test1: bop Test2: beep", fmt(&catalog, &sel, "TWO_PARAM_REVERSE", &args2("beep", "bop")));
    assert_eq!("Test1: bop Test2: beep", fmt(&catalog, &sel, "TWO_PARAM_REVERSE", &arglist(&["beep", "bop"])));
    assert_eq!("Test1: bop Test2: beep", fmt(&catalog, &sel, "TWO_PARAM_REVERSE", &arglist(&["beep", "bop"])));
    assert_eq!("Test1: two Test2: beep", fmt(&catalog, &sel, "TWO_PARAM_REVERSE", &arglist(&["beep", "two", "_ignored"])));
    assert_eq!("Test1:  Test2: beep", fmt(&catalog, &sel, "TWO_PARAM_REVERSE", &arglist(&["beep"])));
    assert_eq!("Test1: {1} Test2: {0}", txt(&catalog, &sel, "TWO_PARAM_REVERSE"));

    assert_eq!("Test1: beep Test4: bap", fmt(&catalog, &sel, "TWO_PARAM_SKIP", &arglist(&["_ignored", "beep", "_ignored", "_ignored", "bap"])));
    assert_eq!("Test1: beep Test4: bap", fmt(&catalog, &sel, "TWO_PARAM_SKIP", &arglist(&["_ignored", "beep", "_ignored", "_ignored", "bap"])));
    assert_eq!("Test1: beep Test4: bap", fmt(&catalog, &sel, "TWO_PARAM_SKIP", &arglist(&["_ignored", "beep", "_ignored", "_ignored", "bap"])));
    assert_eq!("Test1: beep Test4: bap", fmt(&catalog, &sel, "TWO_PARAM_SKIP", &arglist(&["_ignored", "beep", "_ignored", "_ignored", "bap"])));
    assert_eq!("Test1: beep Test4: bap", fmt(&catalog, &sel, "TWO_PARAM_SKIP", &arglist(&["_ignored", "beep", "_ignored", "_ignored", "bap"])));
    assert_eq!("Test1:  Test4: ", fmt(&catalog, &sel, "TWO_PARAM_SKIP", &arglist(&["beep"])));
    assert_eq!("Test1: {1} Test4: {4}", txt(&catalog, &sel, "TWO_PARAM_SKIP"));
}

#[test]
pub fn no_std_test_test() {
    // the same declarations must build into a catalog without any error
    let catalog = build_catalog(test_variants());
    assert!(catalog.is_ok());
}

#[test]
fn default_str_invariant_under_select() {
    let catalog = build_catalog(test_variants()).unwrap();
    let mut sel = LanguageSelector::new();
    let before = catalog.get("COLOR").unwrap().default_str().to_string();
    assert_eq!("Colour", before);
    sel.select(&catalog.names, "German");
    assert_eq!("Colour", catalog.get("COLOR").unwrap().default_str());
    sel.select(&catalog.names, "Nowhere");
    assert_eq!("Colour", catalog.get("COLOR").unwrap().default_str());
    sel.select(&catalog.names, "English");
    assert_eq!("Colour", catalog.get("COLOR").unwrap().default_str());
}

#[test]
fn arity_unifies_across_languages() {
    let variants = vec![
        variant("EN", "en", &[], &[("K", "a{0}b"), ("PLAIN", "plain")]),
        variant("DE", "de", &[], &[("K", "x{2}y")]),
    ];
    let catalog = build_catalog(variants).unwrap();
    let entry = catalog.get("K").unwrap();
    // {0} in one language and {2} in another: arity 3, not 2
    assert_eq!(3, entry.arity);
    assert_eq!(0, catalog.get("PLAIN").unwrap().arity);
    // slot 1 is a valid, silently absent slot in the EN template
    let sel = LanguageSelector::new();
    assert_eq!("a-b", entry.format(&sel, &arglist(&["-", "unused", "unused"])));
}

#[test]
fn greeting_falls_back_to_default() {
    let variants = vec![
        variant("EN", "en", &[], &[("GREETING", "Hello {0}")]),
        variant("DE", "de", &[], &[]),
    ];
    let catalog = build_catalog(variants).unwrap();
    let mut sel = LanguageSelector::new();
    sel.select(&catalog.names, "DE");
    let entry = catalog.get("GREETING").unwrap();
    assert_eq!("Hello Welt", entry.format(&sel, &args1("Welt")));
    assert_eq!("Hello {0}", entry.as_str(&sel));
}

#[test]
fn unknown_language_selects_default_index() {
    let catalog = build_catalog(test_variants()).unwrap();
    let mut sel = LanguageSelector::new();
    sel.select(&catalog.names, "German");
    assert_eq!(2, sel.current_index());
    sel.select(&catalog.names, "FR");
    assert_eq!(0, sel.current_index());
}

#[test]
fn unknown_fallback_is_a_build_error() {
    let variants = vec![
        variant("EN", "en", &[], &[("K", "v")]),
        variant("DE", "de", &["Nowhere"], &[]),
    ];
    let err = match build_catalog(variants) {
        Err(e) => e,
        Ok(_) => panic!("expected a build error"),
    };
    assert!(matches!(
        err,
        trivial_i18n::registry::BuildError::UnknownFallback { ref variant, ref fallback }
            if variant == "DE" && fallback == "Nowhere"
    ));
}

#[test]
fn key_missing_from_default_is_a_build_error() {
    let variants = vec![
        variant("EN", "en", &[], &[("K", "v")]),
        variant("DE", "de", &[], &[("EXTRA", "w")]),
    ];
    let err = match build_catalog(variants) {
        Err(e) => e,
        Ok(_) => panic!("expected a build error"),
    };
    assert!(matches!(
        err,
        trivial_i18n::registry::BuildError::MissingDefaultKey { ref variant, ref key }
            if variant == "DE" && key == "EXTRA"
    ));
}

#[test]
fn transitive_fallback_through_declaration_order() {
    // B is resolved before C consults it, so C ends with A's value for K
    let variants = vec![
        variant("A", "a", &[], &[("K", "from-a")]),
        variant("B", "b", &["A"], &[]),
        variant("C", "c", &["B"], &[]),
    ];
    let catalog = build_catalog(variants).unwrap();
    let mut sel = LanguageSelector::new();
    sel.select(&catalog.names, "C");
    assert_eq!("from-a", catalog.get("K").unwrap().as_str(&sel));
    sel.select(&catalog.names, "B");
    assert_eq!("from-a", catalog.get("K").unwrap().as_str(&sel));
}

#[test]
fn later_declared_fallback_is_consulted_raw() {
    // B's fallback C is declared after B: when B resolves, C is still raw
    // and misses K, so B takes the default's value, not C's eventual one
    let variants = vec![
        variant("A", "a", &[], &[("K", "from-a")]),
        variant("B", "b", &["C"], &[]),
        variant("C", "c", &["A"], &[]),
    ];
    let catalog = build_catalog(variants).unwrap();
    let mut sel = LanguageSelector::new();
    sel.select(&catalog.names, "B");
    assert_eq!("from-a", catalog.get("K").unwrap().as_str(&sel));
}

#[test]
fn no_args_source_is_always_absent() {
    let variants = vec![variant("EN", "en", &[], &[("K", "a{0}b")])];
    let catalog = build_catalog(variants).unwrap();
    let sel = LanguageSelector::new();
    assert_eq!("ab", catalog.get("K").unwrap().format(&sel, &NoArgs {}));
}

#[test]
fn missing_key_yields_no_entry() {
    let catalog = build_catalog(test_variants()).unwrap();
    assert!(catalog.get("NO_SUCH_KEY").is_none());
}
