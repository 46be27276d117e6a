use ufo::element::{MadElement, WindowDef};
use ufo::lattice::{Lattice, LineItem};
use ufo::mad::{call_file, parse_mad, parse_mad_checked, split_statements, strip_mad_comments};
use ufo::UfoError;
use ufo::mad::{source_pieces, SourcePiece};
use ufo::lattice::select_line_name;
use ufo::export::{lattice_text, line_to_style, DumpStyle};

fn number(text: &str) -> f64 {
    text.parse::<f64>().unwrap()
}

fn numbers(texts: &[String]) -> Vec<f64> {
    texts.iter().map(|t| number(t)).collect()
}

fn length_of(element: &MadElement) -> f64 {
    match element {
        MadElement::Drift { length, .. }
        | MadElement::Quadrupole { length, .. }
        | MadElement::Sbend { length, .. }
        | MadElement::Rbend { length, .. }
        | MadElement::Sextupole { length, .. }
        | MadElement::Octupole { length, .. } => number(length),
        _ => 0.0,
    }
}

fn ring_length(lattice: &Lattice<MadElement>) -> f64 {
    let ring = lattice.line("ring").unwrap();
    ring.flatten(lattice).unwrap().into_iter().map(length_of).sum()
}

fn parse_error(input: &str) -> UfoError {
    match parse_mad(input) {
        Err(e) => e,
        Ok(_) => panic!("expected an error for {input:?}"),
    }
}

#[test]
fn parses_current_line_dialect() {
    let lattice =
        parse_mad("d1: DRIFT, L=1.5;\nq1: QUADRUPOLE, L=2, K1=-0.3;\nring: LINE=(d1, q1);\n").unwrap();
    assert_eq!(lattice.elements.len(), 2);
    assert_eq!(lattice.line("ring").unwrap().flatten(&lattice).unwrap().len(), 2);
}

#[test]
fn parses_comments_and_fortran_exponents() {
    let lattice = parse_mad(
        r#"
! Full-line comment
d1: DRIFT, L=1.5D+0; ! inline comment
q1: QUADRUPOLE, L=2d0, K1=-3.0D-1;
ring: LINE=(d1, q1);
"#,
    )
    .unwrap();
    assert_eq!(ring_length(&lattice), 3.5);
    let q1 = lattice.elements.get("q1").unwrap();
    match q1 {
        MadElement::Quadrupole { k1, .. } => assert_eq!(number(k1), -0.3),
        other => panic!("unexpected element: {other:?}"),
    }
}

#[test]
fn parses_field_error_vectors_and_scalar_aliases() {
    let lattice = parse_mad(
        r#"
q: QUADRUPOLE, L=1.0, K1=0.2, DKN={0.1, 0.2}, DKS={0.3}, DK3=0.4, DK2S=0.5;
s: SEXTUPOLE, L=1.0, K2=0.1, DX=0.01, DY=-0.02, DK1=0.7;
ring: LINE=(q, s);
"#,
    )
    .unwrap();

    match lattice.elements.get("q").unwrap() {
        MadElement::Quadrupole { dkn, dks, .. } => {
            assert_eq!(numbers(dkn), vec![0.1, 0.2, 0.0, 0.4]);
            assert_eq!(numbers(dks), vec![0.3, 0.0, 0.5]);
        }
        other => panic!("unexpected element: {other:?}"),
    }
    match lattice.elements.get("s").unwrap() {
        MadElement::Sextupole { dkn, dx, dy, .. } => {
            assert_eq!(numbers(dkn), vec![0.0, 0.7]);
            assert_eq!(number(dx), 0.01);
            assert_eq!(number(dy), -0.02);
        }
        other => panic!("unexpected element: {other:?}"),
    }
}

#[test]
fn line_count_follows_flattened_elements() {
    let lattice = parse_mad(
        r#"
d: DRIFT, L=2.0;
b: SBEND, L=1.0, ANGLE=1.5707963267948966;
ring: LINE=(d, b);
"#,
    )
    .unwrap();
    let ring = lattice.line("ring").unwrap();
    assert_eq!(ring.count(&lattice).unwrap(), 2);
}

#[test]
fn nested_lines_flatten_in_order() {
    let lattice = parse_mad(
        "a: MARKER; b: DRIFT, L=1; cell: LINE=(a, b); ring: LINE=(cell, b, cell);",
    )
    .unwrap();
    let ring = lattice.line("ring").unwrap();
    assert_eq!(
        ring.items,
        vec![
            LineItem::Line("cell".to_string()),
            LineItem::Element("b".to_string()),
            LineItem::Line("cell".to_string())
        ]
    );
    let labels: Vec<String> =
        ring.flatten(&lattice).unwrap().into_iter().map(|e| e.label().to_string()).collect();
    assert_eq!(labels, vec!["a", "b", "b", "a", "b"]);
    assert_eq!(ring.count(&lattice).unwrap(), 5);
}

#[test]
fn commands_are_accepted_and_ignored() {
    let lattice = parse_mad("BEAM, SEQUENCE=RING; d: DRIFT, L=1; USE, PERIOD=RING; x = 3;").unwrap();
    assert_eq!(lattice.elements.len(), 1);
    assert_eq!(lattice.lines.len(), 0);
}

#[test]
fn kinds_and_parameter_names_are_case_insensitive() {
    let lattice = parse_mad("q: quadrupole, l=2, k1=0.5; ring: line=(q);").unwrap();
    match lattice.elements.get("q").unwrap() {
        MadElement::Quadrupole { length, k1, dx, .. } => {
            assert_eq!(length, "2");
            assert_eq!(k1, "0.5");
            assert_eq!(dx, "0");
        }
        other => panic!("unexpected element: {other:?}"),
    }
    assert_eq!(lattice.line("ring").unwrap().items, vec![LineItem::Element("q".to_string())]);
}

#[test]
fn every_element_kind_is_built() {
    let lattice = parse_mad(
        r#"
m: MARKER;
d: DRIFT, L=0.5;
mp: MULTIPOLE, KNL={0.0, 1.0}, KSL={0.5}, DX=0.1;
q: QUADRUPOLE, L=0.4, K1=0.8;
sb: SBEND, L=0.7, ANGLE=0.05, E1=0.01, FINT=0.5;
rb: RBEND, L=1.2, ANGLE=0.1, K1=0.2, E2=0.02;
s: SEXTUPOLE, L=0.2, K2=1.5, K2S=0.1;
o: OCTUPOLE, L=0.1, K3=10, K3S=2;
w: WIRE, X=0.01, Y=0.02, K=3;
c: CAVITY, FIELD=1.0, OMEGA=2.0, LAG=0.5;
a: APERTURE, RADIUS=0.01;
an: APERTURE, WINDOW="rect", RADIUS=2E-2;
ai: APERTURE, WINDOW=1.0;
"#,
    )
    .unwrap();
    assert_eq!(lattice.elements.len(), 13);
    match lattice.elements.get("mp").unwrap() {
        MadElement::Multipole { knl, ksl, dx, dy, .. } => {
            assert_eq!(numbers(knl), vec![0.0, 1.0]);
            assert_eq!(numbers(ksl), vec![0.5]);
            assert_eq!(number(dx), 0.1);
            assert_eq!(dy, "0");
        }
        other => panic!("unexpected element: {other:?}"),
    }
    match lattice.elements.get("rb").unwrap() {
        MadElement::Rbend { length, angle, k1, e1, e2, .. } => {
            assert_eq!((length.as_str(), angle.as_str(), k1.as_str()), ("1.2", "0.1", "0.2"));
            assert_eq!((e1.as_str(), e2.as_str()), ("0", "0.02"));
        }
        other => panic!("unexpected element: {other:?}"),
    }
    match lattice.elements.get("a").unwrap() {
        MadElement::Aperture { window, radius, .. } => {
            assert!(matches!(window, WindowDef::Text(t) if t == "0"));
            assert_eq!(radius.as_deref(), Some("0.01"));
        }
        other => panic!("unexpected element: {other:?}"),
    }
    match lattice.elements.get("an").unwrap() {
        MadElement::Aperture { window, radius, .. } => {
            assert!(matches!(window, WindowDef::Text(t) if t == "rect"));
            assert_eq!(radius.as_deref(), Some("2E-2"));
        }
        other => panic!("unexpected element: {other:?}"),
    }
    match lattice.elements.get("ai").unwrap() {
        MadElement::Aperture { window, radius, .. } => {
            assert!(matches!(window, WindowDef::Number(t) if t == "1.0"));
            assert!(radius.is_none());
        }
        other => panic!("unexpected element: {other:?}"),
    }
    match lattice.elements.get("w").unwrap() {
        MadElement::Wire { x, y, k, .. } => assert_eq!(numbers(&[x.clone(), y.clone(), k.clone()]), vec![0.01, 0.02, 3.0]),
        other => panic!("unexpected element: {other:?}"),
    }
}

#[test]
fn later_definitions_replace_earlier_ones() {
    let lattice = parse_mad("d: DRIFT, L=1; d: DRIFT, L=2, L=3;").unwrap();
    assert_eq!(lattice.elements.len(), 1);
    match lattice.elements.get("d").unwrap() {
        MadElement::Drift { length, .. } => assert_eq!(length, "3"),
        other => panic!("unexpected element: {other:?}"),
    }
}

#[test]
fn unknown_line_reference_is_reported() {
    match parse_error("d: DRIFT, L=1; ring: LINE=(d, missing, d);") {
        UfoError::UnknownReference(label) => assert_eq!(label, "missing"),
        other => panic!("unexpected: {other:?}"),
    }
}

#[test]
fn a_line_cannot_name_itself() {
    match parse_error("ring: LINE=(ring);") {
        UfoError::UnknownReference(label) => assert_eq!(label, "ring"),
        other => panic!("unexpected: {other:?}"),
    }
}

#[test]
fn unknown_element_kind_is_reported_in_upper_case() {
    match parse_error("x: Kicker, L=1;") {
        UfoError::UnknownElementKind(kind) => assert_eq!(kind, "KICKER"),
        other => panic!("unexpected: {other:?}"),
    }
}

#[test]
fn parameters_of_the_wrong_type_are_reported() {
    match parse_error("d: DRIFT, L={1, 2};") {
        UfoError::ExpectedNumber { kind, parameter } => {
            assert_eq!(kind, "DRIFT");
            assert_eq!(parameter, "L");
        }
        other => panic!("unexpected: {other:?}"),
    }
    match parse_error("m: MULTIPOLE, KNL=1;") {
        UfoError::ExpectedVector { kind, parameter } => {
            assert_eq!(kind, "MULTIPOLE");
            assert_eq!(parameter, "KNL");
        }
        other => panic!("unexpected: {other:?}"),
    }
    match parse_error("a: APERTURE, WINDOW={1};") {
        UfoError::ExpectedString { kind, parameter } => {
            assert_eq!(kind, "APERTURE");
            assert_eq!(parameter, "WINDOW");
        }
        other => panic!("unexpected: {other:?}"),
    }
    match parse_error("q: QUADRUPOLE, L=1, DK2=\"x\";") {
        UfoError::ExpectedNumber { parameter, .. } => assert_eq!(parameter, "DK2"),
        other => panic!("unexpected: {other:?}"),
    }
}

#[test]
fn rbend_reads_its_field_errors_before_its_length() {
    match parse_error("b: RBEND, L=\"x\", DKN=1;") {
        UfoError::ExpectedVector { parameter, .. } => assert_eq!(parameter, "DKN"),
        other => panic!("unexpected: {other:?}"),
    }
    match parse_error("b: SBEND, L=\"x\", DKN=1;") {
        UfoError::ExpectedNumber { parameter, .. } => assert_eq!(parameter, "L"),
        other => panic!("unexpected: {other:?}"),
    }
}

#[test]
fn fortran_exponents_inside_vectors_are_refused() {
    match parse_error("m: MULTIPOLE, KNL={1.0, 2d0};") {
        UfoError::Parse(message) => assert_eq!(message, "invalid number `2d0`"),
        other => panic!("unexpected: {other:?}"),
    }
}

#[test]
fn malformed_statements_are_parse_errors() {
    match parse_error("d: DRIFT, L=1; q: QUADRUPOLE, L=; ring: LINE=(nothing);") {
        UfoError::Parse(message) => assert_eq!(message, "invalid statement `q: QUADRUPOLE, L=`"),
        other => panic!("unexpected: {other:?}"),
    }
    assert!(matches!(parse_error("ring: LINE=(a b);"), UfoError::Parse(_)));
    assert!(matches!(parse_error("1d: DRIFT;"), UfoError::Parse(_)));
    assert!(matches!(parse_error("d: DRIFT, L=1,;"), UfoError::Parse(_)));
    assert!(matches!(parse_error("s: APERTURE, WINDOW=\"open;"), UfoError::Parse(_)));
}

#[test]
fn huge_field_error_order_is_not_read() {
    assert!(parse_mad_checked("q: QUADRUPOLE, DK18446744073709551615=1;").is_none());
    assert!(parse_mad_checked("q: QUADRUPOLE, DK5S=1;").is_some());
    assert!(parse_mad_checked("d: DRIFT, DK18446744073709551615=1;").is_some());
}

#[test]
fn strips_comments_outside_strings() {
    assert_eq!(strip_mad_comments("a; ! note\nb \"!x\"; !end"), "a; \nb \"!x\"; ");
}

#[test]
fn splits_statements_outside_strings() {
    assert_eq!(
        split_statements(" a: X;; b: Y, S=\"p;q\" ;c "),
        vec!["a: X".to_string(), "b: Y, S=\"p;q\"".to_string(), "c".to_string()]
    );
}

#[test]
fn call_statements_name_their_file() {
    assert_eq!(call_file("CALL, FILE=\"optics/drift.mad\""), Some("optics/drift.mad".to_string()));
    assert_eq!(call_file("call, file = \"x.mad\""), Some("x.mad".to_string()));
    assert_eq!(call_file("CALL, FILE=x.mad"), None);
    assert_eq!(call_file("BEAM, FILE=\"x\""), None);
    assert_eq!(call_file("CALL"), None);
}

#[test]
fn source_pieces_mark_includes() {
    let pieces = source_pieces("! header\nCALL, FILE=\"a.mad\"; d: DRIFT, L=1; ! note\nBEAM");
    assert_eq!(pieces.len(), 3);
    assert!(matches!(&pieces[0], SourcePiece::Include(f) if f == "a.mad"));
    assert!(matches!(&pieces[1], SourcePiece::Text(t) if t == "d: DRIFT, L=1;\n"));
    assert!(matches!(&pieces[2], SourcePiece::Text(t) if t == "BEAM;\n"));
}

#[test]
fn line_selection_prefers_ring_then_the_first_label() {
    let with_ring = parse_mad("d: DRIFT; b: LINE=(d); RING: LINE=(d); a: LINE=(d);").unwrap();
    assert_eq!(select_line_name(&with_ring, None), Some("RING".to_string()));
    assert_eq!(select_line_name(&with_ring, Some("b".to_string())), Some("b".to_string()));
    let without = parse_mad("d: DRIFT; zz: LINE=(d); cell: LINE=(d);").unwrap();
    assert_eq!(select_line_name(&without, None), Some("cell".to_string()));
    let none = parse_mad("d: DRIFT;").unwrap();
    assert_eq!(select_line_name(&none, None), None);
}

#[test]
fn line_find_matches_legacy_index_semantics() {
    let lattice = parse_mad(
        r#"
d1: DRIFT, L=1.0;
q: QUADRUPOLE, L=2.0, K1=0.3;
d2: DRIFT, L=3.0;
ring: LINE=(d1, q, d2);
"#,
    )
    .unwrap();
    let ring = lattice.line("ring").unwrap();
    let drifts = ring.find(&lattice, |element| matches!(element, MadElement::Drift { .. })).unwrap();
    assert_eq!(drifts, vec![0, 2]);
}

#[test]
fn lines_written_in_mad_style_read_back() {
    let lattice = parse_mad("d: DRIFT, L=1; q: QUADRUPOLE; cell: LINE=(d, q); ring: LINE=(cell, d);").unwrap();
    let ring = lattice.line("ring").unwrap();
    let text = line_to_style(ring, DumpStyle::Mad);
    assert_eq!(text, "ring: LINE=(cell, d);\n");
    let elegant = line_to_style(ring, DumpStyle::Elegant);
    assert_eq!(elegant, "ring: LINE=(cell, d)\n");
    assert_eq!(line_to_style(ring, DumpStyle::At), "ring = [cell, d];\n\n");
    assert_eq!(line_to_style(ring, DumpStyle::Opa), "ring : cell, d;\r\n");
    let again = parse_mad(&format!("d: DRIFT; q: MARKER; cell: LINE=(d, q); {text}")).unwrap();
    assert_eq!(again.line("ring").unwrap(), ring);
    let again = parse_mad(&format!("d: DRIFT; q: MARKER; cell: LINE=(d, q); {elegant}")).unwrap();
    assert_eq!(again.line("ring").unwrap(), ring);
}

#[test]
fn error_messages_match_their_display() {
    assert_eq!(
        UfoError::UnknownReference("x".to_string()).message(),
        "unknown element or line reference `x`"
    );
    assert_eq!(
        UfoError::TooManyInstructionArgs { name: "k".to_string(), count: 300, max: 255 }.message(),
        "bytecode instruction `k` uses 300 arguments, maximum is 255"
    );
    assert_eq!(
        UfoError::InstructionTooLargeForChunk { name: "k".to_string(), words: 4, chunk_words: 3 }.message(),
        "bytecode instruction `k` needs 4 words, larger than chunk size 3"
    );
    assert_eq!(UfoError::InvalidBytecodeChunkSize.message(), "bytecode chunk size must be at least 2 words");
    let error = ufo::export::unsupported_export("m", ufo::export::DumpStyle::At);
    assert!(error.message().contains("at export"));
    assert_eq!(error.message(), "unsupported parameter `at export` for `m`");
    assert_eq!(
        UfoError::ExpectedNumber { kind: "DRIFT".to_string(), parameter: "L".to_string() }.message(),
        "parameter `L` for `DRIFT` must be numeric"
    );
}

#[test]
fn lattice_text_orders_elements_then_lines() {
    let lattice = parse_mad("b: DRIFT; a: DRIFT; ring: LINE=(a, b); cell: LINE=(b);").unwrap();
    let elements = vec!["a: DRIFT, L=0;\n".to_string(), "b: DRIFT, L=0;\n".to_string()];
    let text = lattice_text("", &elements, &lattice.lines, DumpStyle::Mad);
    assert_eq!(
        text,
        "a: DRIFT, L=0;\nb: DRIFT, L=0;\n\ncell: LINE=(b);\nring: LINE=(a, b);\n"
    );
    let at = lattice_text("head\n", &Vec::new(), &lattice.lines, DumpStyle::At);
    assert!(at.starts_with("head\ncell = [b];\n\n"));
    assert!(at.ends_with("if nargout\n    varargout{1} = THERING;\nend\nend"));
}

#[test]
fn removing_comments_twice_removes_no_more() {
    let text = "a: DRIFT, L=1; ! one\n! two ; three\nb: MARKER; s: APERTURE, WINDOW=\"x!y\"; !";
    let once = strip_mad_comments(text);
    assert_eq!(strip_mad_comments(&once), once);
}

#[test]
fn comments_do_not_change_what_a_text_reads_as() {
    let text = "d: DRIFT, L=2; ! a drift ; not a statement\nq: QUADRUPOLE, L=1, K1=0.5; !\nring: LINE=(d, q);";
    let with_comments = parse_mad(text).unwrap();
    let without = parse_mad(&strip_mad_comments(text)).unwrap();
    assert_eq!(with_comments.elements.len(), without.elements.len());
    assert_eq!(with_comments.line("ring").unwrap(), without.line("ring").unwrap());
    assert_eq!(ring_length(&with_comments), ring_length(&without));
    assert_eq!(ring_length(&with_comments), 3.0);
}
