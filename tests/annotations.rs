use ltapiserv_rs::annotations::{AnnotationElement, Annotations, Data};

fn text(s: &str) -> AnnotationElement {
    AnnotationElement::Text { text: s.to_string() }
}

fn markup(m: &str, i: Option<&str>) -> AnnotationElement {
    AnnotationElement::Markup { markup: m.to_string(), interpret_as: i.map(|s| s.to_string()) }
}

#[test]
fn empty_document() {
    let a = Annotations { annotation: vec![] };
    assert_eq!(a.text(), "");
    assert_eq!(a.text_len(), 0);
    assert_eq!(a.translate_span(0, 0), (0, 0));
}

#[test]
fn whitespace_markup_is_kept() {
    let a = Annotations { annotation: vec![text("a"), markup("\n\n", None), text("b")] };
    assert_eq!(a.text(), "a\n\nb");
    let a = Annotations { annotation: vec![text("a"), markup("\n\n", Some("X")), text("b")] };
    assert_eq!(a.text(), "a\n\nb");
    assert_eq!(a.text_len(), 4);
}

#[test]
fn markup_collapses_or_substitutes() {
    let a = Annotations { annotation: vec![text("Hello"), markup("<p>", None), text("world")] };
    assert_eq!(a.text(), "Helloworld");
    let a = Annotations { annotation: vec![text("Hello"), markup("<p>", Some(" ")), text("world")] };
    assert_eq!(a.text(), "Hello world");
    assert_eq!(a.translate_span(5, 6), (5, 8));
    assert_eq!(a.translate_span(6, 11), (8, 13));
}

#[test]
fn length_matches_text() {
    let a = Annotations {
        annotation: vec![text("héllo"), markup("<br/>", Some("\n")), markup("", None), text("wörld")],
    };
    assert_eq!(a.text_len(), a.text().chars().count());
    assert_eq!(a.text_len(), 11);
}

#[test]
fn pure_text_maps_to_itself() {
    let a = Annotations { annotation: vec![text("ab"), text("cde"), text("f")] };
    for s in 0..6 {
        for e in s..=6 {
            assert_eq!(a.translate_span(s, e), (s, e));
        }
    }
}

#[test]
fn unmapped_ends_fall_back() {
    let a = Annotations { annotation: vec![text("ab"), markup("<x>", None)] };
    assert_eq!(a.translate_span(5, 9), (0, 5));
    assert_eq!(a.translate_span(1, 2), (1, 5));
}

#[test]
fn spans_are_ordered() {
    let a = Annotations {
        annotation: vec![text("ab"), markup("<em>", None), text("cd"), markup("<p>", Some(" ")), text("e")],
    };
    let n = a.text_len();
    for s in 0..=n {
        for e in s..=n {
            let (x, y) = a.translate_span(s, e);
            assert!(x <= y && y <= 12);
        }
    }
}

#[test]
fn data_into_annotations() {
    let d = Data::Text { text: "hi".to_string() };
    assert_eq!(d.into_annotations().text(), "hi");
    let d = Data::Annotations(Annotations { annotation: vec![markup("<b>", None), text("x")] });
    let a = d.into_annotations();
    assert_eq!(a.text(), "x");
    assert_eq!(a.translate_span(0, 1), (3, 4));
}

#[test]
fn fits_small_documents() {
    let a = Annotations::from_text("abc".to_string());
    assert!(a.fits_in_usize());
}
