use html5ever::tendril::TendrilSink;
use markup5ever_rcdom::{Handle, NodeData, RcDom};
use oso::dom::{
    get_element_by_id, get_elements_by_attribute, get_elements_by_name, status_spec_page, status_tables, table_cells, table_data, DomNode,
    ERROR_CODE_TABLE_ID, MAIN_SECTION_ID, SUCCESS_CODE_TABLE_ID, WARN_CODE_TABLE_ID,
};
use oso::status::StatusCodeInfo;

fn el(tag: &str, attrs: &[(&str, &str)], children: Vec<DomNode>) -> DomNode {
    DomNode {
        tag: Some(tag.to_string()),
        attrs: attrs.iter().map(|(a, b)| (a.to_string(), b.to_string())).collect(),
        text: None,
        children,
    }
}

fn text(t: &str) -> DomNode {
    DomNode { tag: None, attrs: vec![], text: Some(t.to_string()), children: vec![] }
}

fn cell(t: &str) -> DomNode {
    el("td", &[], vec![el("p", &[], vec![text(t)])])
}

fn code_row(m: &str, v: &str, d: &str) -> DomNode {
    el("tr", &[], vec![cell(m), cell(v), cell(d)])
}

fn table(id: &str, rows: Vec<DomNode>) -> DomNode {
    let mut all = vec![el("tr", &[], vec![cell("Mnemonic"), cell("Value"), cell("Description")])];
    all.extend(rows);
    el("table", &[("id", id)], vec![el("tbody", &[], all)])
}

fn page() -> DomNode {
    el("html", &[], vec![el("body", &[], vec![el("section", &[("id", MAIN_SECTION_ID)], vec![
        table(SUCCESS_CODE_TABLE_ID, vec![code_row("EFI_SUCCESS", "0", "The operation completed successfully.")]),
        table(ERROR_CODE_TABLE_ID, vec![
            code_row("EFI_LOAD_ERROR", "1", "The image failed to load."),
            code_row("EFI_INVALID_PARAMETER", "2", "A parameter was incorrect."),
        ]),
        table(WARN_CODE_TABLE_ID, vec![code_row("EFI_WARN_UNKNOWN_GLYPH", "1", "The string contained characters.")]),
    ])])])
}

#[test]
fn find_by_id_in_document_order() {
    let doc = el("div", &[("class", "wow"), ("id", "identical")], vec![
        el("p", &[("id", "inner")], vec![text("text")]),
        el("section", &[("id", "inner")], vec![]),
    ]);
    assert!(get_element_by_id(&doc, "identical").is_some());
    let inner = get_element_by_id(&doc, "inner").unwrap();
    assert_eq!(inner.tag.as_deref(), Some("p"));
    assert!(get_element_by_id(&doc, "missing").is_none());
}

#[test]
fn elements_by_name_in_document_order() {
    let doc = el("div", &[], vec![
        el("p", &[("n", "1")], vec![el("p", &[("n", "2")], vec![])]),
        el("p", &[("n", "3")], vec![]),
    ]);
    let ps = get_elements_by_name(&doc, "p");
    let ns: Vec<&str> = ps.iter().map(|p| p.attrs[0].1.as_str()).collect();
    assert_eq!(ns, vec!["1", "2", "3"]);
    assert_eq!(get_elements_by_name(&doc, "div").len(), 1);
}

#[test]
fn rows_skip_the_header() {
    let t = table("t", vec![code_row("A", "1", "a"), code_row("B", "2", "b")]);
    let rows = table_cells(&t);
    assert_eq!(rows, vec![
        vec!["A".to_string(), "1".to_string(), "a".to_string()],
        vec!["B".to_string(), "2".to_string(), "b".to_string()],
    ]);
    assert_eq!(table_data(&code_row("X", "9", "x")), vec!["X", "9", "x"]);
}

#[test]
fn status_page_tables() {
    let t = status_tables(&page()).unwrap();
    assert_eq!(t.success.len(), 1);
    assert_eq!(t.error.len(), 2);
    assert_eq!(t.warn.len(), 1);
    assert_eq!(t.error[1].mnemonic, "EFI_INVALID_PARAMETER");
    assert_eq!(t.error[1].value, 2 | StatusCodeInfo::error_bit());
    assert_eq!(t.warn[0].value, 1);
}

#[test]
fn missing_table_is_named() {
    let doc = el("section", &[("id", MAIN_SECTION_ID)], vec![table(SUCCESS_CODE_TABLE_ID, vec![])]);
    let e = status_tables(&doc).err().unwrap();
    assert_eq!(e, format!("ELEMENT WITH ID NOT FOUND: {ERROR_CODE_TABLE_ID}"));
}

const BASIC_HTML: &str = r#"
<div class="wow" id="identical">
	<p style="color: blue">text</p>
</div>
<section>hohoho</section>
<section class="main_sec wow">
	<h1 id="first_header">welcome</h1>
	<p class="wow">0w0</p>
</section>"#;

fn dom_of(node: &Handle) -> DomNode {
    let children = node.children.borrow().iter().map(dom_of).collect();
    match &node.data {
        NodeData::Element { name, attrs, .. } => DomNode {
            tag: Some(name.local.to_string()),
            attrs: attrs.borrow().iter().map(|a| (a.name.local.to_string(), a.value.to_string())).collect(),
            text: None,
            children,
        },
        NodeData::Text { contents } => DomNode {
            tag: None,
            attrs: vec![],
            text: Some(contents.borrow().to_string()),
            children,
        },
        _ => DomNode { tag: None, attrs: vec![], text: None, children },
    }
}

fn parse_text(txt: &str) -> DomNode {
    let dom = html5ever::parse_document(RcDom::default(), Default::default()).one(txt);
    dom_of(&dom.document)
}

#[test]
fn test_get_element_by_id() {
    let node = parse_text(BASIC_HTML);
    assert!(get_element_by_id(&node, "identical").is_some());
    assert!(get_element_by_id(&node, "first_header").is_some());
    assert!(get_element_by_id(&node, "non_exist_id").is_none());
}

#[test]
fn test_get_elements_by_attribute() {
    let node = parse_text(BASIC_HTML);
    let class_wow = get_elements_by_attribute(&node, "class", "wow");
    assert_eq!(class_wow.len(), 3);

    let class_main_sec = get_elements_by_attribute(&node, "class", "main_sec");
    assert_eq!(class_main_sec.len(), 1);

    let style_color_bule = get_elements_by_attribute(&node, "style", "color: blue");
    assert_eq!(style_color_bule.len(), 1);
}

#[test]
fn test_get_elements_by_name() {
    let node = parse_text(BASIC_HTML);
    let div = get_elements_by_name(&node, "div");
    assert_eq!(div.len(), 1);

    let p = get_elements_by_name(&node, "p");
    assert_eq!(p.len(), 2);

    let section = get_elements_by_name(&node, "section");
    assert_eq!(section.len(), 2);

    let h1 = get_elements_by_name(&node, "h1");
    assert_eq!(h1.len(), 1);
}

fn html_table(id: &str, rows: &[(&str, &str, &str)]) -> String {
    let mut t = format!(r#"<table id="{id}"><tr><td><p>Mnemonic</p></td><td><p>Value</p></td><td><p>Description</p></td></tr>"#);
    for (m, v, d) in rows {
        t.push_str(&format!("<tr><td><p>{m}</p></td><td><p>{v}</p></td><td><p>{d}</p></td></tr>"));
    }
    t.push_str("</table>");
    t
}

#[test]
fn status_page_markup_is_read() {
    let page = format!(
        r#"<html><body><section id="{MAIN_SECTION_ID}">{}{}{}</section></body></html>"#,
        html_table(SUCCESS_CODE_TABLE_ID, &[("EFI_SUCCESS", "0", "Done.")]),
        html_table(ERROR_CODE_TABLE_ID, &[("EFI_LOAD_ERROR", "1", "Failed."), ("EFI_INVALID_PARAMETER", "2", "Bad.")]),
        html_table(WARN_CODE_TABLE_ID, &[("EFI_WARN_UNKNOWN_GLYPH", "1", "Glyph.")]),
    );
    let t = status_spec_page(&page).unwrap();
    assert_eq!(t.success.len(), 1);
    assert_eq!(t.success[0].mnemonic, "EFI_SUCCESS");
    assert_eq!(t.error.len(), 2);
    assert_eq!(t.error[0].value, 1 | StatusCodeInfo::error_bit());
    assert_eq!(t.error[1].desc, "Bad.");
    assert_eq!(t.warn[0].value, 1);
}

#[test]
fn status_page_without_main_section_is_refused() {
    assert_eq!(status_spec_page("<p>nothing here</p>").err().unwrap(), "status code page is not readable");
    let page = format!(
        r#"<section id="{MAIN_SECTION_ID}">{}</section>"#,
        html_table(SUCCESS_CODE_TABLE_ID, &[("EFI_SUCCESS", "zero", "Done.")]),
    );
    assert_eq!(status_spec_page(&page).err().unwrap(), "status code page is not readable");
}

fn same_tree(a: &DomNode, b: &DomNode) -> bool {
    a.tag == b.tag
        && a.attrs == b.attrs
        && a.text == b.text
        && a.children.len() == b.children.len()
        && a.children.iter().zip(b.children.iter()).all(|(x, y)| same_tree(x, y))
}

#[test]
fn html_tree_keeps_the_document_order() {
    let tree = oso::html::html_tree(BASIC_HTML).unwrap();
    assert!(same_tree(&tree, &parse_text(BASIC_HTML)));
    let first = get_element_by_id(&tree, "first_header").unwrap();
    assert_eq!(first.children[0].text.as_deref(), Some("welcome"));
}
