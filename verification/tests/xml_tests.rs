use harmony_glitch::street::layout::{dynamic_part, parse_filters, signpost_connections, street_gradient, text_or};
use harmony_glitch::street::xml::{parse_glitch_xml, parse_i64, tokenize, XmlEvent, XmlValue};

#[test]
fn parse_typed_values() {
    let xml = r#"
        <object id="root">
            <int id="width">6000</int>
            <str id="name">Test Street</str>
            <bool id="active">true</bool>
            <null id="nothing"/>
        </object>"#;
    let val = parse_glitch_xml(xml).unwrap();
    assert_eq!(val.get("width").unwrap().as_int(), Some(6000));
    assert_eq!(val.get("name").unwrap().as_str(), Some("Test Street"));
    assert_eq!(val.get("active").unwrap().as_bool(), Some(true));
    assert!(matches!(val.get("nothing"), Some(XmlValue::Null)));
}

#[test]
fn parse_nested_objects() {
    let xml = r#"
        <object id="root">
            <object id="gradient">
                <str id="top">87A8C9</str>
                <str id="bottom">FFC400</str>
            </object>
        </object>"#;
    let val = parse_glitch_xml(xml).unwrap();
    let grad = val.get("gradient").unwrap();
    assert_eq!(grad.get("top").unwrap().as_str(), Some("87A8C9"));
    assert_eq!(grad.get("bottom").unwrap().as_str(), Some("FFC400"));
}

#[test]
fn parse_platform_line() {
    let xml = r#"
        <object id="root">
            <object id="platform_lines">
                <object id="plat_1">
                    <object id="start">
                        <int id="x">-228</int>
                        <int id="y">-58</int>
                    </object>
                    <object id="end">
                        <int id="x">-119</int>
                        <int id="y">-77</int>
                    </object>
                    <int id="platform_pc_perm">-1</int>
                </object>
            </object>
        </object>"#;
    let val = parse_glitch_xml(xml).unwrap();
    let plats = val.get("platform_lines").unwrap().as_object().unwrap();
    let p = plats.get("plat_1").unwrap();
    let start = p.get("start").unwrap();
    assert_eq!(start.get("x").unwrap().as_int(), Some(-228));
    assert_eq!(start.get("y").unwrap().as_int(), Some(-58));
}

#[test]
fn parse_i64_reads_signed_decimals() {
    assert_eq!(parse_i64("6000"), Some(6000));
    assert_eq!(parse_i64("-228"), Some(-228));
    assert_eq!(parse_i64("+7"), Some(7));
    assert_eq!(parse_i64("9223372036854775807"), Some(i64::MAX));
    assert_eq!(parse_i64("-9223372036854775808"), Some(i64::MIN));
    assert_eq!(parse_i64("9223372036854775808"), None);
    assert_eq!(parse_i64(""), None);
    assert_eq!(parse_i64("-"), None);
    assert_eq!(parse_i64("12a"), None);
    assert_eq!(parse_i64("1.5"), None);
}

#[test]
fn int_that_is_no_integer_is_left_out() {
    let xml = r#"<object id="root"><int id="a">abc</int><int id="b">3</int></object>"#;
    let val = parse_glitch_xml(xml).unwrap();
    assert!(val.get("a").is_none());
    assert_eq!(val.get("b").unwrap().as_int(), Some(3));
}

#[test]
fn bool_is_true_only_for_true() {
    let xml = r#"<object id="root"><bool id="a">yes</bool><bool id="b">true</bool></object>"#;
    let val = parse_glitch_xml(xml).unwrap();
    assert_eq!(val.get("a").unwrap().as_bool(), Some(false));
    assert_eq!(val.get("b").unwrap().as_bool(), Some(true));
}

#[test]
fn objrefs_and_unknown_elements() {
    let xml = r#"<game_object tsid="X"><object id="dynamic">
        <objref id="r1" tsid="LA1" label="One"/>
        <objref id="r2" tsid="LA2" label="Two"></objref>
        <weird id="w">text</weird>
        <int id="after">9</int>
        <object><int id="lost">1</int></object>
    </object></game_object>"#;
    let val = parse_glitch_xml(xml).unwrap();
    let d = val.get("dynamic").unwrap();
    assert!(matches!(d.get("r1"), Some(XmlValue::ObjRef { tsid, label }) if tsid == "LA1" && label == "One"));
    assert!(matches!(d.get("r2"), Some(XmlValue::ObjRef { tsid, label }) if tsid == "LA2" && label == "Two"));
    assert!(d.get("w").is_none());
    assert_eq!(d.get("after").unwrap().as_int(), Some(9));
    assert!(d.get("lost").is_none());
    assert_eq!(d.as_object().unwrap().len(), 3);
}

#[test]
fn unknown_element_skips_to_its_own_closing_tag() {
    // Every opening tag inside goes one level down, but only `</weird>`
    // comes back up, so a nested element of another name is never left.
    let xml = r#"<object><weird><int id="inner">5</int></weird><int id="after">9</int></object>"#;
    let r = parse_glitch_xml(xml);
    assert_eq!(r.err(), Some("Unexpected end of XML in object".to_string()));
    let xml = r#"<object><weird><weird>x</weird></weird><int id="after">9</int></object>"#;
    let val = parse_glitch_xml(xml).unwrap();
    assert_eq!(val.get("after").unwrap().as_int(), Some(9));
}

#[test]
fn later_duplicate_wins() {
    let xml = r#"<object><int id="a">1</int><int id="a">2</int></object>"#;
    let val = parse_glitch_xml(xml).unwrap();
    assert_eq!(val.get("a").unwrap().as_int(), Some(2));
}

#[test]
fn missing_root_is_an_error() {
    assert_eq!(parse_glitch_xml("").err(), Some("Unexpected end of XML".to_string()));
    assert_eq!(parse_glitch_xml("<other/>").err(), Some("Unexpected end of XML".to_string()));
}

#[test]
fn unclosed_object_is_an_error() {
    let r = parse_glitch_xml("<object><int id=\"a\">1</int>");
    assert_eq!(r.err(), Some("Unexpected end of XML in object".to_string()));
}

#[test]
fn unclosed_text_is_an_error() {
    let r = parse_glitch_xml("<object><str id=\"a\">hi");
    assert!(r.is_err());
}

#[test]
fn tokenize_ends_with_eof() {
    let ts = tokenize("<a x=\"1\">t</a>");
    assert_eq!(ts.len(), 4);
    assert!(matches!(&ts[0], XmlEvent::Start { name, attrs } if name == "a" && attrs.len() == 1));
    assert!(matches!(&ts[1], XmlEvent::Text(Ok(t)) if t == "t"));
    assert!(matches!(&ts[2], XmlEvent::End { name } if name == "a"));
    assert!(matches!(&ts[3], XmlEvent::Eof));
}

#[test]
fn layout_reads_gradient_and_labels() {
    let xml = r#"<game_object><object id="dynamic">
        <str id="label">Groddle Meadow</str>
        <object id="gradient"><str id="top">87A8C9</str><str id="bottom">FFC400</str></object>
    </object></game_object>"#;
    let root = parse_glitch_xml(xml).unwrap();
    let d = dynamic_part(&root);
    assert_eq!(text_or(d, "label", "Unnamed Street"), "Groddle Meadow");
    assert_eq!(text_or(d, "tsid", "unknown"), "unknown");
    let g = street_gradient(d).unwrap();
    assert_eq!(g.top, "87A8C9");
    assert_eq!(g.bottom, "FFC400");
}

#[test]
fn layout_gradient_needs_both_colours() {
    let xml = r#"<object><object id="gradient"><str id="top">87A8C9</str></object></object>"#;
    let root = parse_glitch_xml(xml).unwrap();
    let d = dynamic_part(&root);
    assert!(street_gradient(d).is_none());
}

#[test]
fn layout_reads_filters() {
    let xml = r#"<object><object id="layer">
        <object id="filtersNEW">
            <object id="brightness"><int id="value">-20</int></object>
            <object id="tintColor"><int id="value">4294967295</int></object>
            <object id="blur"><str id="value">x</str></object>
        </object>
    </object></object>"#;
    let root = parse_glitch_xml(xml).unwrap();
    let f = parse_filters(root.get("layer").unwrap()).unwrap();
    assert_eq!(f.brightness, Some(-20));
    assert_eq!(f.tint_color, Some(-1));
    assert_eq!(f.blur, None);
    assert_eq!(f.contrast, None);
    assert!(parse_filters(&root).is_none());
}

#[test]
fn layout_reads_signpost_connections() {
    let xml = r#"<object><object id="sp">
        <object id="connects">
            <object id="0"><objref id="target" tsid="LA1" label="North"/></object>
            <object id="1"><str id="target">nowhere</str></object>
            <object id="2"><objref id="target" tsid="LA2" label="South"/></object>
        </object>
    </object></object>"#;
    let root = parse_glitch_xml(xml).unwrap();
    let c = signpost_connections(root.get("sp").unwrap());
    assert_eq!(c.len(), 2);
    assert_eq!(c[0].target_tsid, "LA1");
    assert_eq!(c[0].target_label, "North");
    assert_eq!(c[1].target_tsid, "LA2");
    assert!(signpost_connections(&root).is_empty());
}
