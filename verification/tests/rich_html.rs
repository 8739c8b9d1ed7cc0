use clause_linker::rich_html::add_clause_links;
use clause_linker::rich_html::add_clauses_ids;
use clause_linker::rich_html::better_toc;
use clause_linker::rich_html::extract_clause_no_from_h_entry;
use clause_linker::rich_html::extract_clause_no_from_toc_entry;
use clause_linker::rich_html::html_to_better_html;
use clause_linker::rich_html::remove_hard_spaces;
use clause_linker::rich_html::remove_span_language_en;

#[test]
fn test_add_clause_links_ts_clause() {
    let source = "Foo TS 11.222 [3] clause 4.55.6 bar";
    let expected =
        r#"Foo <a href="../11.222/11.222.html#4.55.6">TS 11.222 [3] clause 4.55.6</a> bar"#;
    assert_eq!(add_clause_links(&source), expected)
}

#[test]
fn test_add_clause_links_ts_with_comma_clause() {
    let source = "Foo TS 11.222 [3], clause 4.55.6 bar";
    let expected =
        r#"Foo <a href="../11.222/11.222.html#4.55.6">TS 11.222 [3], clause 4.55.6</a> bar"#;
    assert_eq!(add_clause_links(&source), expected)
}

#[test]
fn test_add_clause_links_ts_clause_with_letter_at_end() {
    let source = "Foo TS 11.222 [3] clause 4.55.6b bar";
    let expected =
        r#"Foo <a href="../11.222/11.222.html#4.55.6b">TS 11.222 [3] clause 4.55.6b</a> bar"#;
    assert_eq!(add_clause_links(&source), expected)
}

#[test]
fn test_add_clause_links_ts_clause_with_dot_at_end() {
    let source = "Foo TS 11.222 [3] clause 4.55.6. Bar";
    let expected =
        r#"Foo <a href="../11.222/11.222.html#4.55.6">TS 11.222 [3] clause 4.55.6</a>. Bar"#;
    assert_eq!(add_clause_links(&source), expected)
}

#[test]
fn test_add_clause_links_ts_without_ts_word_clause() {
    let source = "Foo 11.222 [3] clause 4.55.6 bar";
    let expected = r#"Foo <a href="../11.222/11.222.html#4.55.6">11.222 [3] clause 4.55.6</a> bar"#;
    assert_eq!(add_clause_links(&source), expected)
}

#[test]
fn test_add_clause_links_clause_of_ts() {
    let source = "Foo in clause 11.2.33 of TS 44.555 [6] bar";
    let expected =
        r#"Foo <a href="../44.555/44.555.html#11.2.33">in clause 11.2.33 of TS 44.555 [6]</a> bar"#;
    assert_eq!(add_clause_links(&source), expected)
}

#[test]
fn test_add_clause_links_clause_in_ts() {
    let source = "Foo TS 11.222 [33] bar";
    let expected = r#"Foo <a href="../11.222/11.222.html">TS 11.222 [33]</a> bar"#;
    assert_eq!(add_clause_links(&source), expected)
}

#[test]
fn test_add_clause_links_clause_some_text_in_ts() {
    let source = "Foo clause 11.2.33 (Some text) in TS 44.555 [6] bar";
    let expected = r#"Foo <a href="../44.555/44.555.html#11.2.33">clause 11.2.33 (Some text) in TS 44.555 [6]</a> bar"#;
    assert_eq!(add_clause_links(&source), expected)
}

#[test]
fn test_add_clause_links_clause() {
    let source = "Foo clause 11.2.33 bar";
    let expected = r##"Foo <a href="#11.2.33">clause 11.2.33</a> bar"##;
    assert_eq!(add_clause_links(&source), expected)
}

#[test]
fn test_add_clause_links_clause_capital() {
    let source = "Foo Clause 11.2.33, bar";
    let expected = r##"Foo <a href="#11.2.33">Clause 11.2.33</a>, bar"##;
    assert_eq!(add_clause_links(&source), expected)
}

#[test]
fn test_add_clause_links_in_clause_no() {
    let source = "Foo in 11.2.33 bar";
    let expected = r##"Foo <a href="#11.2.33">in 11.2.33</a> bar"##;
    assert_eq!(add_clause_links(&source), expected)
}

#[test]
fn test_add_clause_links_see_clause_no() {
    let source = "Foo see 11.2.33 bar";
    let expected = r##"Foo <a href="#11.2.33">see 11.2.33</a> bar"##;
    assert_eq!(add_clause_links(&source), expected)
}

#[test]
fn test_add_clause_links_ts() {
    let source = "Foo see 11.2.33 bar";
    let expected = r##"Foo <a href="#11.2.33">see 11.2.33</a> bar"##;
    assert_eq!(add_clause_links(&source), expected)
}

#[test]
fn test_add_clause_links_doesnt_replace_regular_sentence_with_in_see() {
    let source = "Foo in bar, see baz. Qux";
    let expected = r#"Foo in bar, see baz. Qux"#;
    assert_eq!(add_clause_links(&source), expected)
}

#[test]
fn test_add_clause_links_doesnt_replace_standalone_number() {
    let source = "Foo 4.5 bar";
    let expected = r#"Foo 4.5 bar"#;
    assert_eq!(add_clause_links(&source), expected)
}

#[test]
fn test_remove_span_language_en() {
    let source =
        r#"FOO <span lang="en-GB"> BAR </span> BAZ <span lang="en-US"> QUX </span> TOP KEK"#;
    let expected = r#"FOO  BAR  BAZ  QUX  TOP KEK"#;
    assert_eq!(remove_span_language_en(&String::from(source)), expected)
}

#[test]
fn test_extract_clause_no_from_toc_entry() {
    let source = r#"<p lang="en-GB" style="margin-left: 0.79in;">
	5.17.2<font face="Calibri, sans-serif"><font size="2" style="font-size: 11pt"><span lang="en-US">	</span></font></font>Interworking
	with EPC	<a href="\#__RefHeading___Toc19177586">164</a></p>"#;

    let expected = "5.17.2";

    let result = extract_clause_no_from_toc_entry(&source);
    assert!(!result.is_none());
    assert_eq!(result.unwrap(), expected)
}

#[test]
fn test_extract_clause_no_from_h_entry() {
    let source = r##"<h4 lang="en-US" class="western"><a name="__RefHeading___Toc19183553"></a>
4.2.3.3	Lorem ipsum dolor sit amet</h4>
<p lang="en-GB" class="western" style="margin-bottom: 0.13in; line-height: 100%">
Lorem ipsum dolor sit amet, consectetur adipiscing elit, .</p>"##;

    let expected = "4.2.3.3";

    let result = extract_clause_no_from_h_entry(&source);
    assert!(!result.is_none());
    assert_eq!(result.unwrap(), expected)
}

#[test]
fn test_add_clauses_ids() {
    let source = r##"<h1 lang="en-US" class="western"><a name="__RefHeading___Toc19183553"></a>
1.2.3	Lorem ipsum dolor sit amet</h1>
<p lang="en-GB" class="western" style="margin-bottom: 0.13in; line-height: 100%">
Lorem ipsum dolor sit amet, consectetur adipiscing elit, .</p>

<h2 lang="en-US" class="western"><a name="__RefHeading___Toc19183553"></a>
4.5	Lorem ipsum dolor sit amet</h2>
<p lang="en-GB" class="western" style="margin-bottom: 0.13in; line-height: 100%">
Lorem ipsum dolor sit amet, consectetur adipiscing elit, .</p>"##;

    let expected = r##"<h1 id="1.2.3"  lang="en-US" class="western"><a name="__RefHeading___Toc19183553"></a>
1.2.3	Lorem ipsum dolor sit amet</h1>
<p lang="en-GB" class="western" style="margin-bottom: 0.13in; line-height: 100%">
Lorem ipsum dolor sit amet, consectetur adipiscing elit, .</p>

<h2 id="4.5"  lang="en-US" class="western"><a name="__RefHeading___Toc19183553"></a>
4.5	Lorem ipsum dolor sit amet</h2>
<p lang="en-GB" class="western" style="margin-bottom: 0.13in; line-height: 100%">
Lorem ipsum dolor sit amet, consectetur adipiscing elit, .</p>"##;

    assert_eq!(add_clauses_ids(&source), expected);
}

#[test]
fn test_add_clauses_ids_is_idempotent_on_annotated_output() {
    let source = r##"<h1 lang="en-US" class="western"><a name="__RefHeading___Toc19183553"></a>
1.2.3	Lorem ipsum dolor sit amet</h1>
<p lang="en-GB" class="western">Lorem ipsum.</p>"##;

    let once = add_clauses_ids(&source);
    let twice = add_clauses_ids(&once);
    assert_eq!(twice, once);
}

#[test]
fn test_remove_hard_spaces_replaces_each_entity() {
    let source = String::from("a&nbsp;b&nbsp;&nbsp;c");
    assert_eq!(remove_hard_spaces(&source), "a b  c");
}

#[test]
fn test_remove_span_language_en_leaves_unclosed_span() {
    let source = String::from(r#"FOO <span lang="en-GB"> BAR"#);
    assert_eq!(remove_span_language_en(&source), r#"FOO <span lang="en-GB"> BAR"#);
}

#[test]
fn test_remove_span_language_en_strips_any_language_code() {
    let source = String::from(r#"FOO <span lang="fr-FR"> BAR </span> BAZ"#);
    assert_eq!(remove_span_language_en(&source), "FOO  BAR  BAZ");
}

#[test]
fn test_remove_span_language_en_keeps_malformed_language_code() {
    let source = String::from(r#"FOO <span lang="french"> BAR </span>"#);
    assert_eq!(remove_span_language_en(&source), r#"FOO <span lang="french"> BAR </span>"#);
}

#[test]
fn test_extract_clause_no_from_toc_entry_annex_is_not_a_clause() {
    let source = r#"<p>Annex A	Something	12</p>"#;
    assert!(extract_clause_no_from_toc_entry(&source).is_none());
}

#[test]
fn test_extract_clause_no_from_h_entry_title_is_optional() {
    let source = r##"<h3>4.2.3</h3"##;
    assert_eq!(extract_clause_no_from_h_entry(&source).unwrap(), "4.2.3");
}

#[test]
fn test_extract_clause_no_from_h_entry_non_digit_heading() {
    let source = r##"<h1 class="western">Foreword and scope</h1>"##;
    assert!(extract_clause_no_from_h_entry(&source).is_none());
}

#[test]
fn test_better_toc_links_clause_entries_only() {
    let source = "<head></head><div id=\"Table of Contents1\" dir=\"ltr\"><p>5.17.2\tInterworking\t164</p><p>Annex A\tTables\t210</p></div><body>rest</body>";
    let expected = "<head></head><div id=\"Table of Contents1\" dir=\"ltr\"><a href=\"#5.17.2\"><p>5.17.2\tInterworking\t164</p></a><p>Annex A\tTables\t210</p></div><body>rest</body>";
    assert_eq!(better_toc(source), expected);
}

#[test]
fn test_better_toc_without_toc_region_copies_input() {
    let source = "<html><body>no contents table here</body></html>";
    assert_eq!(better_toc(source), source);
}

#[test]
fn test_add_clause_links_empty_input() {
    assert_eq!(add_clause_links(""), "");
}

#[test]
fn test_add_clause_links_comma_form_resolves_like_plain_form() {
    let plain = add_clause_links("TS 11.222 [3] clause 4.55.6");
    let comma = add_clause_links("TS 11.222 [3], clause 4.55.6");
    let target = r#"<a href="../11.222/11.222.html#4.55.6">"#;
    assert!(plain.starts_with(target));
    assert!(comma.starts_with(target));
}

#[test]
fn test_add_clause_links_bad_citation_stays_unlinked() {
    let source = "Foo TS 11.222 [3a] bar";
    assert_eq!(add_clause_links(&source), source);
}

#[test]
fn test_add_clause_links_single_digit_clause_stays_unlinked() {
    let source = "Foo clause 4 bar";
    assert_eq!(add_clause_links(&source), source);
}

#[test]
fn test_html_to_better_html_runs_all_stages() {
    let source = String::from("<div id=\"Table of Contents1\" dir=\"ltr\"><p>4.5\tTitle&nbsp;here\t7</p></div>\n<h2 lang=\"en-US\"><a name=\"x\"></a>4.5\tTitle here</h2>\nSee also <span lang=\"en-GB\">TS 11.222 [3] clause 4.55.6</span> for more.");
    let expected = "<div id=\"Table of Contents1\" dir=\"ltr\"><a href=\"#4.5\"><p>4.5\tTitle here\t7</p></a></div>\n<h2 id=\"4.5\"  lang=\"en-US\"><a name=\"x\"></a>4.5\tTitle here</h2>\nSee also <a href=\"../11.222/11.222.html#4.55.6\">TS 11.222 [3] clause 4.55.6</a> for more.";
    assert_eq!(html_to_better_html(&source), expected);
}
