use cotton_compiler::{get_dependencies, process, process_with_dependencies};

fn compiled(source: &[u8]) -> String {
    String::from_utf8(process(source).expect("template should compile")).unwrap()
}

fn deps(source: &[u8]) -> Vec<String> {
    get_dependencies(source)
        .expect("template should compile")
        .into_iter()
        .map(|d| String::from_utf8(d).unwrap())
        .collect()
}

#[test]
fn plain_html_passes_through() {
    assert_eq!(compiled(b"<p>hello</p>"), "<p>hello</p>");
    assert_eq!(compiled(b""), "");
    assert_eq!(compiled(b"< div>text"), "< div>text");
    assert_eq!(compiled(b"<d-foo>text</d-foo>"), "<d-foo>text</d-foo>");
}

#[test]
fn expression_and_comment_regions_round_trip() {
    assert_eq!(compiled(b"a {{ b }} c"), "a {{ b }} c");
    assert_eq!(compiled(b"{# note #}rest"), "{# note #}rest");
    assert_eq!(compiled(b"{% if x %}y{% endif %}"), "{% if x %}y{% endif %}");
}

#[test]
fn verbatim_block_shields_tags_and_loses_delimiters() {
    let out = compiled(b"{% cotton_verbatim %}<c-foo>{% endcotton_verbatim %}");
    assert_eq!(out, "<c-foo>");
    let d = deps(b"{% cotton_verbatim %}<c-foo>{% endcotton_verbatim %}");
    assert!(d.is_empty());
}

#[test]
fn comment_block_shields_tags_and_keeps_delimiters() {
    let src = b"{% comment %}<c-x>{% endcomment %}";
    assert_eq!(compiled(src), "{% comment %}<c-x>{% endcomment %}");
    assert!(deps(src).is_empty());
}

#[test]
fn compiled_output_has_no_placeholder() {
    let out = compiled(b"{{ v }}<c-x label=\"{{ v }}\"/>{% if a %}b{% endif %}");
    assert!(!out.contains("__COTTON_IGNORE_"));
    assert_eq!(
        out,
        "{{ v }}{% c x %}{% attr label %}{{ v }}{% endattr %}{% endc %}{% if a %}b{% endif %}"
    );
}

#[test]
fn dependencies_deduplicate_in_first_seen_order() {
    let d = deps(b"<c-foo></c-foo><c-bar /><c-foo>");
    assert_eq!(d, vec!["foo".to_string(), "bar".to_string()]);
}

#[test]
fn vars_header_is_prepended_and_terminated() {
    assert_eq!(
        compiled(b"<c-vars x=\"1\" />Hello"),
        "{% vars x=\"1\" %}Hello{% endvars %}"
    );
}

#[test]
fn vars_body_is_discarded() {
    assert_eq!(
        compiled(b"<c-vars a=\"2\">discarded</c-vars>After"),
        "{% vars a=\"2\" %}After{% endvars %}"
    );
}

#[test]
fn quoted_gt_does_not_truncate_tag() {
    let out = compiled(b"<c-x label=\"a > b\"/>");
    assert_eq!(out, "{% c x label=\"a > b\" %}{% endc %}");
}

#[test]
fn self_closing_component_gets_immediate_end() {
    assert_eq!(
        compiled(b"<c-card title=\"hi\"/>"),
        "{% c card title=\"hi\" %}{% endc %}"
    );
}

#[test]
fn slot_tags_rewrite_by_name() {
    assert_eq!(
        compiled(b"<c-slot name=\"header\">x</c-slot>"),
        "{% slot header %}x{% endslot %}"
    );
    assert_eq!(compiled(b"<c-slot name='n'>"), "{% slot n %}");
}

#[test]
fn dynamic_component_records_is_value() {
    let src = b"<c-component is=\"widgets.button\">B</c-component>";
    assert_eq!(deps(src), vec!["widgets.button".to_string()]);
    assert_eq!(
        compiled(src),
        "{% c component is=\"widgets.button\" %}B{% endc %}"
    );
}

#[test]
fn dynamic_component_with_placeholder_is_records_nothing() {
    let d = deps(b"<c-component is=\"{{ d }}\" />");
    assert!(d.is_empty());
}

#[test]
fn bare_and_unquoted_attributes() {
    assert_eq!(compiled(b"<c-btn disabled />"), "{% c btn disabled %}{% endc %}");
    assert_eq!(compiled(b"<c-b x=1>"), "{% c b x=\"1\" %}");
}

#[test]
fn value_with_equals_is_extracted() {
    assert_eq!(
        compiled(b"<c-btn data=\"a=b\"/>"),
        "{% c btn %}{% attr data %}a=b{% endattr %}{% endc %}"
    );
}

#[test]
fn tags_inside_directive_regions_survive() {
    let src = b"{% if x %}<c-a>{% endif %}";
    assert_eq!(compiled(src), "{% if x %}{% c a %}{% endif %}");
    assert_eq!(deps(src), vec!["a".to_string()]);
}

#[test]
fn identical_tag_text_is_replaced_globally() {
    let out = compiled(b"<c-a>text<c-a>");
    assert_eq!(out, "{% c a %}text{% c a %}");
    assert_eq!(deps(b"<c-a>text<c-a>"), vec!["a".to_string()]);
}

#[test]
fn process_with_dependencies_returns_both() {
    let (text, d) = process_with_dependencies(b"<c-foo/>").expect("template should compile");
    assert_eq!(String::from_utf8(text).unwrap(), "{% c foo %}{% endc %}");
    assert_eq!(d, vec![b"foo".to_vec()]);
}

#[test]
fn vars_header_restores_its_own_placeholders() {
    assert_eq!(
        compiled(b"<c-vars x=\"{{ d }}\" />Body"),
        "{% vars x=\"{{ d }}\" %}Body{% endvars %}"
    );
}

#[test]
fn name_merely_starting_with_vars_is_an_ordinary_component() {
    assert_eq!(compiled(b"<c-varsity x=\"1\">"), "{% c varsity x=\"1\" %}");
    assert_eq!(deps(b"<c-varsity x=\"1\">"), vec!["varsity".to_string()]);
}
