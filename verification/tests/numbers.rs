use ableton_cli::numbers::{float_parse_error, is_float_literal};

#[test]
fn float_literals_match_the_standard_parser() {
    let probes = [
        "", "0", "120", "-5", "+5", "1.", ".5", ".", "-.", "+.5", "1e5", "1E5", "1e", "1e+", "1e-3",
        "1.5e-3", "e5", ".e5", "1.e5", "inf", "-INF", "+Infinity", "infinit", "NaN", "-nan", "nan1",
        "1_000", " 1", "1 ", "0x10", "1.2.3", "--1", "+-1", "١", "63072000", "-63072000",
        "12.0000000000000000000000001", "1e400", "-1e-400",
    ];
    for p in probes {
        let expected = p.parse::<f64>();
        assert_eq!(is_float_literal(p), expected.is_ok(), "literal {p:?}");
        assert_eq!(
            float_parse_error(p),
            expected.err().map(|e| e.to_string()),
            "literal {p:?}"
        );
    }
}
