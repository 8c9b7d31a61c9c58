use trivial_i18n::arity::{find_all_format_indices, find_max_format_index_per_key};
use trivial_i18n::catalog::{build_catalog, LanguageSelector};
use trivial_i18n::compile::parse_property_values_for_substitution_format;
use trivial_i18n::escape::escape_string_for_source;
use trivial_i18n::format::{format_segments, ArgList, Args1, NoArgs};
use trivial_i18n::registry::Variant;
use trivial_i18n::template::compile_template;

fn variant(name: &str, fallbacks: &[&str], props: &[(&str, &str)]) -> Variant {
    Variant {
        name: name.to_string(),
        path: String::new(),
        fallbacks: fallbacks.iter().map(|f| f.to_string()).collect(),
        properties: props.iter().map(|(k, v)| (k.to_string(), v.to_string())).collect(),
        segments: Vec::new(),
    }
}

fn one_arg(a: &str) -> Args1 {
    Args1 { v0: a.to_string() }
}

#[test]
fn literal_template_compiles_to_one_segment() {
    let segs = compile_template("just some text");
    assert_eq!(1, segs.len());
    assert_eq!("just some text", segs[0].literal);
    assert_eq!(None, segs[0].index);
    assert_eq!("just some text", format_segments(&segs, &NoArgs {}));
    assert_eq!(
        "just some text",
        format_segments(&segs, &ArgList { items: vec!["x".to_string()] })
    );
}

#[test]
fn empty_template_compiles_to_no_segments() {
    let segs = compile_template("");
    assert_eq!(0, segs.len());
    assert_eq!("", format_segments(&segs, &NoArgs {}));
}

#[test]
fn placeholder_template_splits() {
    let segs = compile_template("A{0}B{1}C");
    assert_eq!(3, segs.len());
    assert_eq!("A", segs[0].literal);
    assert_eq!(Some(0), segs[0].index);
    assert_eq!("B", segs[1].literal);
    assert_eq!(Some(1), segs[1].index);
    assert_eq!("C", segs[2].literal);
    assert_eq!(None, segs[2].index);
}

#[test]
fn out_of_range_slot_contributes_no_text() {
    let segs = compile_template("A{0}B{1}C");
    assert_eq!("AvBC", format_segments(&segs, &one_arg("v")));
}

#[test]
fn malformed_placeholders_stay_literal() {
    let cases = [
        "{",
        "{a}",
        "{{0}",
        "{1x",
        "AB{12",
        "{1{2}",
        "{ 0}",
        "{99999999999999999999999999}",
    ];
    for case in cases {
        let segs = compile_template(case);
        assert_eq!(1, segs.len(), "case {case}");
        assert_eq!(case, segs[0].literal, "case {case}");
        assert_eq!(None, segs[0].index, "case {case}");
        assert_eq!(case, format_segments(&segs, &one_arg("v")), "case {case}");
    }
}

#[test]
fn multi_digit_and_leading_zero_indices() {
    let segs = compile_template("x{10}y{03}z");
    assert_eq!(3, segs.len());
    assert_eq!(Some(10), segs[0].index);
    assert_eq!(Some(3), segs[1].index);
    assert_eq!("z", segs[2].literal);
}

#[test]
fn escape_rewrites_each_character() {
    assert_eq!("plain", escape_string_for_source("plain"));
    assert_eq!("a\\\\nb", escape_string_for_source("a\nb"));
    assert_eq!("\\\\r\\\\t", escape_string_for_source("\r\t"));
    assert_eq!("\\\\\"", escape_string_for_source("\""));
    assert_eq!("\\\\", escape_string_for_source("\\"));
    assert_eq!("a\\\\nb\\\\\"c\\\\", escape_string_for_source("a\nb\"c\\"));
}

#[test]
fn per_key_arity_is_the_maximum_over_variants() {
    let variants = vec![
        variant("EN", &[], &[("A", "{0}"), ("B", "plain")]),
        variant("DE", &[], &[("A", "{2}"), ("B", "still plain")]),
    ];
    let compiled = parse_property_values_for_substitution_format(variants);
    let table = find_max_format_index_per_key(&compiled);
    let mut seen = std::collections::HashMap::new();
    for (k, v) in &table {
        seen.insert(k.clone(), *v);
    }
    assert_eq!(Some(&3), seen.get("A"));
    assert_eq!(Some(&0), seen.get("B"));
    assert_eq!(2, table.len());
}

#[test]
fn all_format_indices_are_sorted_and_unique() {
    let variants = vec![
        variant("EN", &[], &[("A", "{0}"), ("B", "plain")]),
        variant("DE", &[], &[("A", "{2}")]),
    ];
    let compiled = parse_property_values_for_substitution_format(variants);
    let all = find_all_format_indices(&compiled);
    assert_eq!(vec![0, 1, 3], all);
}

#[test]
fn formatting_uses_the_selected_variant_segments() {
    let variants = vec![
        variant("EN", &[], &[("K", "en-{0}")]),
        variant("DE", &[], &[("K", "de-{0}")]),
    ];
    let catalog = build_catalog(variants).unwrap();
    let mut sel = LanguageSelector::new();
    assert_eq!("en-x", catalog.get("K").unwrap().format(&sel, &one_arg("x")));
    sel.select(&catalog.names, "DE");
    assert_eq!("de-x", catalog.get("K").unwrap().format(&sel, &one_arg("x")));
}
