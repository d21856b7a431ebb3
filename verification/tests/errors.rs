use cotton_compiler::errors::ErrorKind;
use cotton_compiler::{get_dependencies, process};

fn failure(source: &[u8]) -> (usize, ErrorKind) {
    let e = process(source).expect_err("template should be rejected");
    (e.line, e.kind)
}

#[test]
fn slot_without_name_is_an_error() {
    assert_eq!(failure(b"<c-slot>"), (1, ErrorKind::SlotMissingName));
}

#[test]
fn slot_error_carries_its_line() {
    assert_eq!(failure(b"\n\n<c-slot>"), (3, ErrorKind::SlotMissingName));
}

#[test]
fn slot_with_valueless_name_is_an_error() {
    assert_eq!(failure(b"<c-slot name>"), (1, ErrorKind::SlotMissingName));
}

#[test]
fn orphan_closing_vars_is_an_error() {
    assert_eq!(failure(b"text\n</c-vars>"), (2, ErrorKind::OrphanClosingVars));
}

#[test]
fn duplicate_vars_is_an_error() {
    assert_eq!(
        failure(b"<c-vars a=\"1\" /><c-vars b=\"2\" />"),
        (1, ErrorKind::DuplicateVars)
    );
}

#[test]
fn missing_closing_vars_is_an_error() {
    assert_eq!(failure(b"<c-vars>x"), (1, ErrorKind::MissingClosingVars));
}

#[test]
fn component_without_is_attribute_is_an_error() {
    assert_eq!(failure(b"<c-component>"), (1, ErrorKind::ComponentMissingIs));
    assert_eq!(failure(b"<c-component is>"), (1, ErrorKind::ComponentMissingIs));
}

#[test]
fn empty_component_name_is_an_error() {
    assert_eq!(failure(b"<c->"), (1, ErrorKind::MissingComponentName));
}

#[test]
fn unterminated_tag_is_an_error() {
    assert_eq!(failure(b"<c-foo"), (1, ErrorKind::UnterminatedTag));
    assert_eq!(failure(b"<c-x label=\"a > b\""), (1, ErrorKind::UnterminatedTag));
}

#[test]
fn line_numbers_count_the_scanned_text() {
    let (line, kind) = failure(b"{{ a\nb }}\n<c-slot>");
    assert_eq!(kind, ErrorKind::SlotMissingName);
    assert_eq!(line, 2);
}

#[test]
fn get_dependencies_reports_errors_too() {
    let e = get_dependencies(b"<c-slot>").expect_err("template should be rejected");
    assert_eq!(e.kind, ErrorKind::SlotMissingName);
}
