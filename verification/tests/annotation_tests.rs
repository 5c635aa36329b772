use pcg::annotations::{annotation_after, check_annotations, AnnotationCheck};
use pcg::body_annotations::{AnnotationKind, BodyAnnotations, LifetimeRenderAnnotation, MarkerMatch, Span};

fn strings(v: &[&str]) -> Vec<String> {
    v.iter().map(|s| s.to_string()).collect()
}

#[test]
fn annotation_after_takes_the_piece_up_to_the_next_marker() {
    assert_eq!(annotation_after("let x; // PCG: a -> b ", "// PCG: "), Some("a -> b".to_string()));
    assert_eq!(annotation_after("x // PCG: one // PCG: two", "// PCG: "), Some("one".to_string()));
    assert_eq!(annotation_after("no marker here", "// PCG: "), None);
    assert_eq!(annotation_after("// ~PCG: c", "// PCG: "), None);
}

#[test]
fn every_expected_annotation_reported_passes() {
    let source = strings(&["fn f() {", "  let x; // PCG: a", "  // ~PCG: c", "}"]);
    let reported = strings(&["a", "b"]);
    assert_eq!(check_annotations(&reported, &source), AnnotationCheck::Passed);
}

#[test]
fn unreported_expected_annotations_are_missing_in_order() {
    let source = strings(&["// PCG: b", "// PCG: a", "// PCG: c"]);
    let reported = strings(&["a"]);
    assert_eq!(check_annotations(&reported, &source), AnnotationCheck::Missing(strings(&["b", "c"])));
}

#[test]
fn reported_forbidden_annotation_is_unexpected() {
    let source = strings(&["// ~PCG: x", "// ~PCG: y", "// PCG: a"]);
    let reported = strings(&["a", "y", "x"]);
    assert_eq!(check_annotations(&reported, &source), AnnotationCheck::Unexpected("x".to_string()));
}

#[test]
fn marker_match_of_line() {
    let m = MarkerMatch::of_line("    let x = 1; // PCG: foo  ").unwrap();
    assert_eq!(m.kind, AnnotationKind::Expected);
    assert_eq!(m.payload, "foo");
    assert_eq!(m.offset, 15);
    let m = MarkerMatch::of_line("// ~PCG: bar").unwrap();
    assert_eq!(m.kind, AnnotationKind::Forbidden);
    assert_eq!(m.payload, "bar");
    assert_eq!(m.offset, 0);
    let m = MarkerMatch::of_line("// PCG_LIFETIME_DISPLAY: x 0 'a").unwrap();
    assert_eq!(m.kind, AnnotationKind::LifetimeDisplay);
    assert_eq!(m.payload, "x 0 'a");
    assert!(MarkerMatch::of_line("plain code").is_none());
}

#[test]
fn marker_offset_counts_bytes() {
    // 'é' takes two bytes
    let m = MarkerMatch::of_line("é // PCG: a").unwrap();
    assert_eq!(m.offset, 3);
}

#[test]
fn body_annotations_skip_those_of_nested_bodies() {
    let snippet = "fn f() {\n    // PCG: outer\n    let c = || { // PCG: inner\n    };\n    // ~PCG: gone\n}";
    assert!(BodyAnnotations::well_formed_source(snippet));
    // the closure's span starts at byte 100 and covers its line
    let closure_line_start = 100 + "fn f() {\n    // PCG: outer\n".len() as u32;
    let nested = vec![Span { lo: closure_line_start, hi: closure_line_start + 30 }];
    let b = BodyAnnotations::of_body(snippet, 100, &nested);
    assert_eq!(b.expected(), &strings(&["outer"]));
    assert_eq!(b.forbidden(), &strings(&["gone"]));
    assert!(b.lifetime_display().is_empty());
    let all = BodyAnnotations::of_body(snippet, 100, &vec![]);
    assert_eq!(all.expected(), &strings(&["outer", "inner"]));
}

#[test]
fn source_with_two_markers_on_a_line_is_rejected() {
    assert!(!BodyAnnotations::well_formed_source("x // PCG: a // ~PCG: b"));
    assert!(BodyAnnotations::well_formed_source("x // PCG: a // PCG: b"));
}

#[test]
fn lifetime_render_annotation_parsing() {
    let a = LifetimeRenderAnnotation::parse("x 1 'a");
    assert_eq!(a.var, "x");
    assert_eq!(a.region_idx.0, 1);
    assert_eq!(a.display_as, "'a");
    assert_eq!(LifetimeRenderAnnotation::try_parse("x +2 b").unwrap().region_idx.0, 2);
    assert!(LifetimeRenderAnnotation::try_parse("x y z").is_none());
    assert!(LifetimeRenderAnnotation::try_parse("x 1").is_none());
    assert!(LifetimeRenderAnnotation::try_parse("x 1 a b").is_none());
    assert!(LifetimeRenderAnnotation::try_parse("x 99999999999999999999999 a").is_none());
    assert_eq!(LifetimeRenderAnnotation::parse("_3 0 a").local_index(), Some(3));
    assert_eq!(LifetimeRenderAnnotation::parse("x 0 a").local_index(), None);
    assert_eq!(LifetimeRenderAnnotation::parse("_x 0 a").local_index(), None);
}

use pcg::body_annotations::source_lines;

#[test]
fn source_lines_drop_line_endings() {
    assert_eq!(source_lines("a\nb\r\n\nc"), strings(&["a", "b", "", "c"]));
    assert_eq!(source_lines("a\n"), strings(&["a"]));
    assert_eq!(source_lines(""), Vec::<String>::new());
    assert_eq!(source_lines("x\r"), strings(&["x\r"]));
}
