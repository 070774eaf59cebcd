use std::str::FromStr;
use std::time::Duration;

use psi::{AllPsiStats, Decimal, ParseError, Psi, PsiError, PsiLine};

fn as_f32(d: Decimal) -> f32 {
    d.mantissa as f32 / 10f32.powi(d.scale as i32)
}

fn parse_error(r: Result<Psi, PsiError>) -> ParseError {
    match r {
        Err(PsiError::PsiParseError(e)) => e,
        other => panic!("expected a parse error, got {:?}", other),
    }
}

#[test]
fn should_parse_full() {
    let line = "full avg10=0.16 avg60=0.00 avg300=0.00 total=27787674";
    let stats = Psi::from_str(line).unwrap();
    assert_eq!(stats.line, PsiLine::Full);
    assert_eq!(as_f32(stats.avg10), 0.16f32);
    assert_eq!(as_f32(stats.avg60), 0f32);
    assert_eq!(as_f32(stats.avg300), 0f32);
    assert_eq!(Duration::from_micros(stats.total), Duration::from_micros(27787674));
}

#[test]
fn should_parse_some() {
    let line = "some avg10=0.16 avg60=0.00 avg300=0.00 total=27787674";
    let stats = Psi::from_str(line).unwrap();
    assert_eq!(stats.line, PsiLine::Partial);
    assert_eq!(as_f32(stats.avg10), 0.16f32);
    assert_eq!(as_f32(stats.avg60), 0f32);
    assert_eq!(as_f32(stats.avg300), 0f32);
    assert_eq!(Duration::from_micros(stats.total), Duration::from_micros(27787674));
}

#[test]
fn psi_should_parse_full() {
    let line = "full avg10=0.16 avg60=0.00 avg300=0.00 total=27787674";
    let stats = Psi::from_str(line).unwrap();
    assert_eq!(
        stats,
        Psi {
            line: PsiLine::Full,
            avg10: Decimal { mantissa: 16, scale: 2 },
            avg60: Decimal { mantissa: 0, scale: 2 },
            avg300: Decimal { mantissa: 0, scale: 2 },
            total: 27787674,
        }
    );
}

#[test]
fn psi_should_parse_some() {
    let line = "some avg10=0.16 avg60=0.00 avg300=0.00 total=27787674";
    let stats = Psi::from_str(line).unwrap();
    assert_eq!(
        stats,
        Psi {
            line: PsiLine::Partial,
            avg10: Decimal { mantissa: 16, scale: 2 },
            avg60: Decimal { mantissa: 0, scale: 2 },
            avg300: Decimal { mantissa: 0, scale: 2 },
            total: 27787674,
        }
    );
}

#[test]
fn wrong_key_order_is_unexpected_term() {
    let line = "full avg60=0.00 avg10=0.16 avg300=0.00 total=27787674";
    match parse_error(Psi::from_str(line)) {
        ParseError::UnexpectedTerm(t) => assert_eq!(t, "avg60=0.00"),
        e => panic!("unexpected error {:?}", e),
    }
}

#[test]
fn unknown_line_word_is_unexpected_term() {
    match parse_error(Psi::from_str("Full avg10=0.16 avg60=0.00 avg300=0.00 total=1")) {
        ParseError::UnexpectedTerm(t) => assert_eq!(t, "Full"),
        e => panic!("unexpected error {:?}", e),
    }
}

#[test]
fn missing_word_names_the_line() {
    let line = "some avg10=0.16 avg60=0.00 avg300=0.00";
    match parse_error(Psi::from_str(line)) {
        ParseError::UnexpectedTerm(t) => assert_eq!(t, line),
        e => panic!("unexpected error {:?}", e),
    }
}

#[test]
fn extra_word_names_the_line() {
    let line = "some avg10=0.16 avg60=0.00 avg300=0.00 total=5 extra=1";
    match parse_error(Psi::from_str(line)) {
        ParseError::UnexpectedTerm(t) => assert_eq!(t, line),
        e => panic!("unexpected error {:?}", e),
    }
}

#[test]
fn empty_line_is_unexpected_term() {
    match parse_error(Psi::from_str("   ")) {
        ParseError::UnexpectedTerm(t) => assert_eq!(t, "   "),
        e => panic!("unexpected error {:?}", e),
    }
}

#[test]
fn bad_total_is_total_error() {
    let line = "some avg10=0.16 avg60=0.00 avg300=0.00 total=12a";
    match parse_error(Psi::from_str(line)) {
        ParseError::TotalParseError(t) => assert_eq!(t, "12a"),
        e => panic!("unexpected error {:?}", e),
    }
}

#[test]
fn total_too_large_is_total_error() {
    let line = "some avg10=0.16 avg60=0.00 avg300=0.00 total=18446744073709551616";
    match parse_error(Psi::from_str(line)) {
        ParseError::TotalParseError(t) => assert_eq!(t, "18446744073709551616"),
        e => panic!("unexpected error {:?}", e),
    }
    let max = "some avg10=0.16 avg60=0.00 avg300=0.00 total=18446744073709551615";
    assert_eq!(Psi::from_str(max).unwrap().total, u64::MAX);
}

#[test]
fn bad_average_is_avg_error() {
    let line = "some avg10=0.16 avg60=1.2.3 avg300=0.00 total=1";
    match parse_error(Psi::from_str(line)) {
        ParseError::AvgParseError(t) => assert_eq!(t, "1.2.3"),
        e => panic!("unexpected error {:?}", e),
    }
    let dangling = "some avg10=0. avg60=0.00 avg300=0.00 total=1";
    match parse_error(Psi::from_str(dangling)) {
        ParseError::AvgParseError(t) => assert_eq!(t, "0."),
        e => panic!("unexpected error {:?}", e),
    }
}

#[test]
fn words_split_on_any_ascii_whitespace() {
    let line = "\tfull  avg10=1.50\r avg60=22 avg300=0.05   total=0 ";
    let p = Psi::parse(line).unwrap();
    assert_eq!(p.line, PsiLine::Full);
    assert_eq!(p.avg10, Decimal { mantissa: 150, scale: 2 });
    assert_eq!(p.avg60, Decimal { mantissa: 22, scale: 0 });
    assert_eq!(p.avg300, Decimal { mantissa: 5, scale: 2 });
    assert_eq!(p.total, 0);
}

#[test]
fn canonical_line_round_trips() {
    for line in [
        "some avg10=0.16 avg60=0.00 avg300=0.00 total=27787674",
        "full avg10=12.05 avg60=100.00 avg300=7 total=0",
        "some avg10=0.01 avg60=3.14159 avg300=0.5 total=18446744073709551615",
    ] {
        assert_eq!(Psi::parse(line).unwrap().to_line(), line);
    }
}

#[test]
fn decimal_parse_and_render() {
    assert_eq!(Decimal::parse("0.16"), Some(Decimal { mantissa: 16, scale: 2 }));
    assert_eq!(Decimal::parse("42"), Some(Decimal { mantissa: 42, scale: 0 }));
    assert_eq!(Decimal::parse(".5"), None);
    assert_eq!(Decimal::parse(""), None);
    assert_eq!(Decimal::parse("1e5"), None);
    assert_eq!(Decimal { mantissa: 5, scale: 3 }.render(), "0.005");
    assert_eq!(Decimal { mantissa: 1234, scale: 1 }.render(), "123.4");
    assert_eq!(Decimal { mantissa: 0, scale: 0 }.render(), "0");
}

#[test]
fn parse_all_reads_both_lines() {
    let text = "some avg10=0.16 avg60=0.00 avg300=0.00 total=27787674\n\
                full avg10=0.10 avg60=0.02 avg300=0.00 total=11111\n";
    let all = AllPsiStats::parse_all(text).unwrap();
    assert_eq!(all.some.line, PsiLine::Partial);
    assert_eq!(all.some.total, 27787674);
    assert_eq!(all.full.line, PsiLine::Full);
    assert_eq!(all.full.total, 11111);
    assert_eq!(all.line(PsiLine::Full), all.full);
    assert_eq!(all.line(PsiLine::Partial), all.some);
    assert_eq!(all.to_text() + "\n", text.replace("                ", ""));
}

#[test]
fn parse_all_missing_some_line() {
    let text = "full avg10=0.16 avg60=0.00 avg300=0.00 total=27787674\n\
                full avg10=0.10 avg60=0.02 avg300=0.00 total=11111\n";
    match AllPsiStats::parse_all(text) {
        Err(ParseError::MissingLine(l)) => assert_eq!(l, PsiLine::Partial),
        other => panic!("unexpected {:?}", other),
    }
}

#[test]
fn parse_all_missing_full_line() {
    let text = "some avg10=0.16 avg60=0.00 avg300=0.00 total=27787674\r\n";
    match AllPsiStats::parse_all(text) {
        Err(ParseError::MissingLine(l)) => assert_eq!(l, PsiLine::Full),
        other => panic!("unexpected {:?}", other),
    }
}

#[test]
fn parse_all_last_line_of_a_kind_wins() {
    let text = "some avg10=1.00 avg60=0.00 avg300=0.00 total=1\n\
                full avg10=0.00 avg60=0.00 avg300=0.00 total=2\n\
                some avg10=2.00 avg60=0.00 avg300=0.00 total=3";
    let all = AllPsiStats::parse_all(text).unwrap();
    assert_eq!(all.some.total, 3);
    assert_eq!(all.full.total, 2);
}

#[test]
fn parse_all_fails_on_first_bad_line() {
    let text = "some avg10=x avg60=0.00 avg300=0.00 total=1\n\
                full avg10=0.00 avg60=0.00 avg300=0.00 total=y";
    match AllPsiStats::parse_all(text) {
        Err(ParseError::AvgParseError(t)) => assert_eq!(t, "x"),
        other => panic!("unexpected {:?}", other),
    }
    match AllPsiStats::parse_all("") {
        Err(ParseError::MissingLine(l)) => assert_eq!(l, PsiLine::Partial),
        other => panic!("unexpected {:?}", other),
    }
}

#[test]
fn line_words_parse() {
    assert_eq!(PsiLine::from_str("some").unwrap(), PsiLine::Partial);
    assert_eq!(PsiLine::from_str("full").unwrap(), PsiLine::Full);
    assert!(PsiLine::from_str("all").is_err());
    assert_eq!(PsiLine::Partial.as_str(), "some");
    assert_eq!(PsiLine::Full.as_str(), "full");
}

#[test]
fn written_line_reads_back() {
    let p = Psi {
        line: PsiLine::Full,
        avg10: Decimal { mantissa: 5, scale: 3 },
        avg60: Decimal { mantissa: 1234, scale: 0 },
        avg300: Decimal { mantissa: 0, scale: 2 },
        total: u64::MAX,
    };
    assert_eq!(p.to_line(), "full avg10=0.005 avg60=1234 avg300=0.00 total=18446744073709551615");
    assert_eq!(Psi::from_str(&p.to_line()).unwrap(), p);
    for l in [PsiLine::Partial, PsiLine::Full] {
        assert_eq!(PsiLine::from_str(l.as_str()).unwrap(), l);
    }
}

#[test]
fn line_word_error_names_the_word() {
    match PsiLine::from_str("Some") {
        Err(PsiError::PsiParseError(ParseError::UnexpectedTerm(t))) => assert_eq!(t, "Some"),
        other => panic!("unexpected {:?}", other),
    }
}
