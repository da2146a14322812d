use plotpath::error::CompileError;
use plotpath::instruction::{serialize, Instrcution, Point};
use plotpath::markup::get_paths_from_file;

use plotpath::instruction::Instrcution::{DrawLine, MoveTo, EOF};

fn node(name: &str, data: Option<&str>) -> (String, Option<String>) {
    (name.to_string(), data.map(|d| d.to_string()))
}

#[test]
fn path_data_is_picked_in_document_order() {
    let nodes = vec![
        node("", None),
        node("svg", None),
        node("path", Some("M 0,0")),
        node("g", Some("not a path")),
        node("path", None),
        node("", Some("no element")),
        node("Path", Some("wrong case")),
        node("path", Some("")),
        node("path", Some("M 1,1 Z")),
    ];
    assert_eq!(get_paths_from_file(&nodes), vec!["M 0,0", "", "M 1,1 Z"]);
    assert_eq!(get_paths_from_file(&[]), Vec::<String>::new());
}

#[test]
fn outline_compiles_like_its_parts() {
    let nodes = vec![node("svg", None), node("path", Some("M 0,0 L 1,1")), node("rect", None)];
    assert_eq!(
        Instrcution::from_outline(Some("0 0 1 1"), &nodes),
        Ok(vec![MoveTo(Point(0, 0)), DrawLine(Point(255, 255)), EOF])
    );
    assert_eq!(
        Instrcution::from_outline(None, &nodes),
        Err(CompileError::MalformedViewbox)
    );
    assert_eq!(Instrcution::from_outline(Some("0 0 1 1"), &[]), Ok(vec![EOF]));
}

#[test]
fn document_with_one_line() {
    let text = r#"<svg xmlns="http://www.w3.org/2000/svg" viewBox="0 0 1 1"><path d="M 0,0 L 1,1"/></svg>"#;
    let list = Instrcution::from_document(text).unwrap();
    assert_eq!(list, vec![MoveTo(Point(0, 0)), DrawLine(Point(255, 255)), EOF]);
    assert_eq!(serialize(&list), vec![1, 0, 0, 2, 255, 255, 0, 0, 0]);
}

#[test]
fn document_with_nested_paths() {
    let text = r#"<?xml version="1.0" encoding="UTF-8"?>
<!-- a drawing -->
<svg xmlns="http://www.w3.org/2000/svg" width="10cm" viewBox="0 0 255 255">
  <title>path</title>
  <path d="M 0,0 L 255,255" stroke="black"/>
  <g id="path">
    <rect d="M 9,9" x="1" y="1"/>
    <path/>
    <g>
      <path fill="none" d="M 216,137 L 83,180 34,111 140,49 166,108 237,89 Z"/>
    </g>
  </g>
  <path d="
     M 1,1
     h 2
  "></path>
</svg>
"#;
    assert_eq!(
        Instrcution::from_document(text),
        Ok(vec![
            MoveTo(Point(0, 0)),
            DrawLine(Point(255, 255)),
            MoveTo(Point(216, 137)),
            DrawLine(Point(83, 180)),
            DrawLine(Point(34, 111)),
            DrawLine(Point(140, 49)),
            DrawLine(Point(166, 108)),
            DrawLine(Point(237, 89)),
            DrawLine(Point(216, 137)),
            MoveTo(Point(1, 1)),
            DrawLine(Point(3, 1)),
            EOF,
        ])
    );
}

#[test]
fn document_whose_root_is_a_path() {
    let text = r#"<path viewBox="0,0,2,2" d="M 1,1"/>"#;
    assert_eq!(Instrcution::from_document(text), Ok(vec![MoveTo(Point(127, 127)), EOF]));
}

#[test]
fn document_without_paths() {
    let text = r#"<svg viewBox="0 0 1 1"><circle r="1"/></svg>"#;
    assert_eq!(Instrcution::from_document(text), Ok(vec![EOF]));
}

#[test]
fn attribute_values_are_unescaped() {
    let text = r#"<svg viewBox="0&#x20;0 1 1"><path d="M&#32;0,0&#9;L 1,1"/></svg>"#;
    assert_eq!(
        Instrcution::from_document(text),
        Ok(vec![MoveTo(Point(0, 0)), DrawLine(Point(255, 255)), EOF])
    );
}

#[test]
fn the_viewbox_is_read_from_the_root_element_only() {
    let text = r#"<svg><g viewBox="0 0 1 1"><path d="M 0,0"/></g></svg>"#;
    assert_eq!(Instrcution::from_document(text), Err(CompileError::MalformedViewbox));
    let text = r#"<svg viewbox="0 0 1 1"><path d="M 0,0"/></svg>"#;
    assert_eq!(Instrcution::from_document(text), Err(CompileError::MalformedViewbox));
}

#[test]
fn what_is_no_document_is_malformed() {
    for text in [
        "",
        "M 0,0 L 1,1",
        "<svg",
        "<svg viewBox='0 0 1 1'>",
        "<svg viewBox='0 0 1 1'><path d='M 0,0'></svg>",
        "<svg viewBox='0 0 1 1'/><svg/>",
        "<svg viewBox='0 0 1 1' viewBox='0 0 2 2'/>",
        "<!-- only a comment -->",
        "<!DOCTYPE svg><svg viewBox='0 0 1 1'/>",
    ] {
        assert_eq!(
            Instrcution::from_document(text),
            Err(CompileError::MalformedDocument),
            "{text:?}"
        );
    }
}

#[test]
fn faults_in_the_drawing_are_reported() {
    let text = r#"<svg viewBox="0 0 1"><path d="M 0,0"/></svg>"#;
    assert_eq!(Instrcution::from_document(text), Err(CompileError::MalformedViewbox));
    let text = r#"<svg viewBox="0 0 0 0"><path d="M 0,0"/></svg>"#;
    assert_eq!(Instrcution::from_document(text), Err(CompileError::InvalidViewbox));
    let text = r#"<svg viewBox="0 0 1 1"><path d="M 0,0"/><path d="z"/></svg>"#;
    assert_eq!(Instrcution::from_document(text), Err(CompileError::MissingStartPoint));
    let text = r#"<svg viewBox="0 0 1 1"><path d="M 0,0 C 1,1"/></svg>"#;
    assert_eq!(Instrcution::from_document(text), Err(CompileError::UnparseableCoordinate));
}
