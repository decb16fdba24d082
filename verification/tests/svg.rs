use virtua_grotesk_figures::svg::{
    attr, figure_metric_rules, figure_metric_tags, panel_caption, parse_svg, Role, SvgError,
};

const SVG: &str = r##"<svg xmlns="http://www.w3.org/2000/svg" width="3000" height="1200">
<text x="0" y="1100" font-size="40"> reference </text>
<text x="1000" y="1100">given 40%</text>
<text x="2000" y="1100">model</text>
<path d="M0 900 L100 900 L50 800 Z" fill="#ccc"/>
<path fill="#000" d="M1000 900 L1100 900 Z"/>
<path d="M2000 900 L2100 900 Z" fill="#FF4E00" stroke="none"/>
</svg>"##;

#[test]
fn panels_pair_labels_with_paths() {
    let panels = parse_svg(SVG).unwrap();
    assert_eq!(panels.len(), 3);
    assert_eq!(panels[0].x.as_deref(), Some("0"));
    assert_eq!(panels[0].label, "reference");
    assert_eq!(panels[0].d, "M0 900 L100 900 L50 800 Z");
    assert_eq!(panels[0].role, Role::Reference);
    assert_eq!(panels[1].x.as_deref(), Some("1000"));
    assert_eq!(panels[1].label, "given 40%");
    assert_eq!(panels[1].role, Role::Given);
    assert_eq!(panels[2].d, "M2000 900 L2100 900 Z");
    assert_eq!(panels[2].role, Role::Model);
}

#[test]
fn fill_roles() {
    assert_eq!(Role::from_fill("#ff4e00"), Role::Model);
    assert_eq!(Role::from_fill("rgb(#FF4535)"), Role::Model);
    assert_eq!(Role::from_fill("#000"), Role::Given);
    assert_eq!(Role::from_fill("#000000"), Role::Given);
    assert_eq!(Role::from_fill("BLACK"), Role::Given);
    assert_eq!(Role::from_fill("#0000"), Role::Reference);
    assert_eq!(Role::from_fill(""), Role::Reference);
    assert_eq!(Role::from_fill("#ccc"), Role::Reference);
}

#[test]
fn attribute_values() {
    assert_eq!(attr(r#"<text x="12" y="3">"#, "x").as_deref(), Some("12"));
    assert_eq!(attr(r#"<text x="12" y="3">"#, "y").as_deref(), Some("3"));
    assert_eq!(attr(r#"<text y="3">"#, "x"), None);
    assert_eq!(attr(r#"<text x="12>"#, "x"), None);
    // the first occurrence wins, even inside another attribute's name
    assert_eq!(attr(r#"<text dx="5" x="7">"#, "x").as_deref(), Some("5"));
}

#[test]
fn missing_x_is_none() {
    let panels = parse_svg(r#"<text>a</text><path d="M0 0"/>"#).unwrap();
    assert_eq!(panels[0].x, None);
    assert_eq!(panels[0].role, Role::Reference);
}

#[test]
fn malformed_documents_are_refused() {
    assert_eq!(parse_svg("<text x=\"1\"").err(), Some(SvgError::UnterminatedText));
    assert_eq!(parse_svg("<text x=\"1\">abc").err(), Some(SvgError::MissingTextEnd));
    assert_eq!(parse_svg("<text>a</text><path d=\"M0 0\">").err(), Some(SvgError::UnterminatedPath));
    assert_eq!(parse_svg("<text>a</text><path fill=\"#000\"/>").err(), Some(SvgError::PathWithoutD));
    assert_eq!(
        parse_svg("<text>a</text><text>b</text><path d=\"M0 0\"/>").err(),
        Some(SvgError::CountMismatch { labels: 2, paths: 1 })
    );
}

#[test]
fn empty_document_has_no_panels() {
    assert_eq!(parse_svg("<svg></svg>").unwrap().len(), 0);
}

#[test]
fn metric_rules_follow_the_geometry() {
    assert_eq!(figure_metric_rules(true, false), (vec![-16, 784], vec![576, 0, 768]));
    assert_eq!(figure_metric_rules(false, true), (vec![-16], vec![576, 0, -256]));
    assert_eq!(figure_metric_rules(false, false), (vec![-16], vec![576, 0]));
}

#[test]
fn metric_tags_follow_the_geometry() {
    assert_eq!(
        figure_metric_tags(true, false),
        vec![("cap 768", 768, false), ("x-height 576", 576, true), ("baseline 0", 0, true)]
    );
    assert_eq!(
        figure_metric_tags(false, true),
        vec![("x-height 576", 576, true), ("baseline 0", 0, true), ("descender -256", -256, true)]
    );
}

#[test]
fn panel_captions_are_numbered_from_one() {
    assert_eq!(panel_caption(0, "reference"), "01 reference");
    assert_eq!(panel_caption(8, "x"), "09 x");
    assert_eq!(panel_caption(9, "y"), "10 y");
    assert_eq!(panel_caption(99, ""), "100 ");
    assert_eq!(panel_caption(2, "model"), format!("{:02} {}", 3, "model"));
}
