use mtg_mana::mana::Mana;
use mtg_mana::mana_cost::ManaCost;
use mtg_mana::token::ParseError;

fn parse(s: &str) -> ManaCost {
    ManaCost::parse_string(s).unwrap()
}

#[test]
fn test_parse() {
    let c = ManaCost::parse_string("{R}{G}{R}{15}{C}{W/U}").unwrap();
    println!("{}", c.print_symbols());
}

#[test]
fn order_does_not_matter() {
    let a = parse("{R}{G}");
    let b = parse("{G}{R}");
    assert_eq!(a, b);
    assert_eq!(a.mana_value(), b.mana_value());
    assert_eq!(a.mana_value(), 2);
}

#[test]
fn generic_amounts_add_up() {
    assert_eq!(parse("{2}{3}").mana_value(), 5);
    assert_eq!(parse("{2}{3}").print_symbols(), "{5}");
}

#[test]
fn variables_count_zero() {
    assert_eq!(parse("{X}{X}{2}").mana_value(), 2);
}

#[test]
fn variables_bound_on_stack() {
    assert_eq!(parse("{X}{X}{2}").mana_value_on_stack(3, 0), 8);
    assert_eq!(parse("{X}{Y}{1}").mana_value_on_stack(2, 5), 8);
    assert_eq!(parse("{R}{X}").mana_value_on_stack(-3, 0), -2);
}

#[test]
fn twobrid_counts_two() {
    assert_eq!(parse("{R/2}{R/2}").mana_value(), 4);
}

#[test]
fn unknown_symbol_is_rejected() {
    match ManaCost::parse_string("{Q}") {
        Err(ParseError::UnrecognizedSymbol(t)) => assert_eq!(t, "{Q}"),
        other => panic!("unexpected result {:?}", other),
    }
    assert!(matches!(ManaCost::parse_string("{}"), Err(ParseError::UnrecognizedSymbol(_))));
    assert!(matches!(ManaCost::parse_string("{W/W}"), Err(ParseError::UnrecognizedSymbol(_))));
    assert!(matches!(ManaCost::parse_string("{W}{U/"), Err(ParseError::MalformedToken)));
}

#[test]
fn unclosed_bracket_is_malformed() {
    assert!(matches!(ManaCost::parse_string("{W}{U"), Err(ParseError::MalformedToken)));
    assert!(matches!(ManaCost::parse_string("{"), Err(ParseError::MalformedToken)));
}

#[test]
fn first_failure_wins() {
    assert!(matches!(ManaCost::parse_string("{Q}{W"), Err(ParseError::UnrecognizedSymbol(_))));
    assert!(matches!(ManaCost::parse_string("{W{Q}"), Err(ParseError::UnrecognizedSymbol(_))));
}

#[test]
fn large_amounts_overflow() {
    assert!(matches!(ManaCost::parse_string("{99999999999}"), Err(ParseError::NumericOverflow)));
    assert!(matches!(ManaCost::parse_string("{2147483648}"), Err(ParseError::NumericOverflow)));
    assert!(matches!(
        ManaCost::parse_string("{2000000000}{2000000000}"),
        Err(ParseError::NumericOverflow)
    ));
    assert!(matches!(
        ManaCost::parse_string("{2147483647}{1}"),
        Err(ParseError::NumericOverflow)
    ));
    assert_eq!(parse("{2147483647}").mana_value(), 2147483647);
}

#[test]
fn large_totals_still_parse() {
    assert_eq!(parse("{2147483647}{W/2}").mana_value(), 2147483649);
    assert_eq!(parse("{2147483647}{W}").mana_value(), 2147483648);
    assert_eq!(parse("{2147483647}{W}").print_symbols(), "{2147483647}{W}");
}

#[test]
fn empty_input() {
    let c = parse("");
    assert_eq!(c.mana_value(), 0);
    assert_eq!(c.print_symbols(), "");
}

#[test]
fn text_outside_brackets_is_skipped() {
    let c = parse("Pay {1}{W} or else } W");
    assert_eq!(c, parse("{1}{W}"));
    assert_eq!(c.mana_value(), 2);
}

#[test]
fn mixed_realistic_cost() {
    let c = parse("{R}{G}{R}{15}{C}{W/U}");
    assert_eq!(c.mana_value(), 20);
    let printed = c.print_symbols();
    assert_eq!(printed, "{15}{R}{R}{G}{C}{W/U}");
    let again = parse(&printed);
    assert_eq!(again, c);
    assert_eq!(again.mana_value(), 20);
}

#[test]
fn print_then_parse_round_trip() {
    for s in ["{X}{Y}{0}{S}{G/U}{B/C}{U/2}", "{0}", "{W}{W}{W}", "{007}{R/W}"] {
        let c = parse(s);
        assert_eq!(parse(&c.print_symbols()), c);
    }
}

#[test]
fn explicit_zero_differs_from_none() {
    assert_eq!(parse("{0}").print_symbols(), "{0}");
    assert_ne!(parse("{0}"), parse(""));
    assert_eq!(parse("{0}").mana_value(), 0);
    assert_eq!(parse("{015}").print_symbols(), "{15}");
}

#[test]
fn printer_uses_fixed_order() {
    let c = parse("{G/C}{X}{B/R}{U}{3}{W}{W/2}{S}");
    assert_eq!(c.print_symbols(), "{3}{W}{U}{S}{X}{B/R}{W/2}{G/C}");
    assert_eq!(c.mana_value(), 3 + 1 + 1 + 1 + 0 + 1 + 2 + 1);
}

#[test]
fn catalog_texts_and_values() {
    assert_eq!(Mana::White.text(), "{W}");
    assert_eq!(Mana::RG.text(), "{R/G}");
    assert_eq!(Mana::B2.text(), "{B/2}");
    assert_eq!(Mana::WC.text(), "{W/C}");
    assert_eq!(Mana::B2.value(), 2);
    assert_eq!(Mana::X.value(), 0);
    assert_eq!(Mana::Y.value(), 0);
    assert_eq!(Mana::GU.value(), 1);
    assert_eq!(Mana::Snow.value(), 1);
}

#[test]
fn concatenation_adds_costs() {
    let a = parse("{2147483647}");
    let b = parse("{W}");
    let ab = parse("{2147483647}{W}");
    assert_eq!(ab.mana_value(), a.mana_value() + b.mana_value());
    assert_eq!(parse("{1}{R}").mana_value() + parse("{2}{R}{G}").mana_value(), parse("{1}{R}{2}{R}{G}").mana_value());
    assert_eq!(parse("{1}{R}{2}{R}{G}").print_symbols(), "{3}{R}{R}{G}");
}
