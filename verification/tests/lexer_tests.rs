use objmesh::lexer::{split_fields, split_lines, split_slash};
use objmesh::numeric::{check_float_token, parse_face_component};

fn bytes(s: &str) -> Vec<u8> {
    s.as_bytes().to_vec()
}

#[test]
fn lines_are_cut_at_every_newline() {
    let lines = split_lines(b"a\nbb\n\nc");
    assert_eq!(lines, vec![bytes("a"), bytes("bb"), bytes(""), bytes("c")]);
}

#[test]
fn trailing_newline_yields_trailing_empty_line() {
    assert_eq!(split_lines(b"a\n"), vec![bytes("a"), bytes("")]);
    assert_eq!(split_lines(b""), vec![bytes("")]);
    assert_eq!(split_lines(b"\n"), vec![bytes(""), bytes("")]);
}

#[test]
fn fields_are_maximal_blank_free_runs() {
    let line = bytes("  v  1.0\t2.0   3.0 ");
    assert_eq!(
        split_fields(&line),
        vec![bytes("v"), bytes("1.0"), bytes("2.0"), bytes("3.0")]
    );
    assert_eq!(split_fields(&bytes("")), Vec::<Vec<u8>>::new());
    assert_eq!(split_fields(&bytes("   \t ")), Vec::<Vec<u8>>::new());
}

#[test]
fn slash_split_keeps_empty_components() {
    let tok = bytes("1//3");
    assert_eq!(split_slash(&tok), vec![bytes("1"), bytes(""), bytes("3")]);
    assert_eq!(split_slash(&bytes("7")), vec![bytes("7")]);
    assert_eq!(split_slash(&bytes("/")), vec![bytes(""), bytes("")]);
}

#[test]
fn face_components_resolve_one_based() {
    assert_eq!(parse_face_component(&bytes("1")), 0);
    assert_eq!(parse_face_component(&bytes("12")), 11);
    assert_eq!(parse_face_component(&bytes("+5")), 4);
    assert_eq!(parse_face_component(&bytes("007")), 6);
}

#[test]
fn unparsable_face_components_resolve_to_zero() {
    assert_eq!(parse_face_component(&bytes("")), 0);
    assert_eq!(parse_face_component(&bytes("abc")), 0);
    assert_eq!(parse_face_component(&bytes("0")), 0);
    assert_eq!(parse_face_component(&bytes("-3")), 0);
    assert_eq!(parse_face_component(&bytes("1.5")), 0);
    assert_eq!(parse_face_component(&bytes("99999999999")), 0);
    assert_eq!(parse_face_component(&bytes("+")), 0);
}

#[test]
fn numeric_tokens_match_float_parsing() {
    for ok in [
        "0", "1", "-1", "+1", "1.5", ".5", "1.", "-2e3", "1.5E-2", "+.25e+2", "inf", "-inf",
        "Infinity", "NaN", "nan",
    ] {
        assert!(check_float_token(&bytes(ok)), "expected accept: {}", ok);
        assert!(ok.parse::<f32>().is_ok(), "std disagrees on: {}", ok);
    }
    for bad in [
        "", "+", "-", ".", "e5", "1e", "1e+", "1..2", "1.2.3", "1e5e2", "abc", "1x", "in",
        "infinit", "--1", "1 2",
    ] {
        assert!(!check_float_token(&bytes(bad)), "expected reject: {}", bad);
        assert!(bad.parse::<f32>().is_err(), "std disagrees on: {}", bad);
    }
}
