use mtg_color::ColorSet;
use mtg_mana::card_object::MtgObject;
use mtg_mana::mana_cost::ManaCost;
use mtg_mana::mana_symbol::ManaSymbol;
use mtg_mana::number::Number;

#[test]
fn symbol_text_repeats() {
    assert_eq!(ManaSymbol::White(3).symbol(), "{W}{W}{W}");
    assert_eq!(ManaSymbol::R2(1).symbol(), "{R/2}");
    assert_eq!(ManaSymbol::GC(0).symbol(), "");
    assert_eq!(ManaSymbol::Generic(12).symbol(), "{12}");
    assert_eq!(ManaSymbol::Generic(0).symbol(), "{0}");
}

#[test]
fn number_text() {
    assert_eq!(Number::N(42).text(), "42");
    assert_eq!(Number::N(-7).text(), "-7");
    assert_eq!(Number::N(0).text(), "0");
    assert_eq!(Number::N(i32::MIN).text(), "-2147483648");
    assert_eq!(Number::Star.text(), "*");
    assert_eq!(Number::X.text(), "X");
}

fn object(names: &[&str], costs: &[&str]) -> MtgObject {
    MtgObject {
        name: names.iter().map(|s| s.to_string()).collect(),
        mana_cost: costs.iter().map(|s| ManaCost::parse_string(s).unwrap()).collect(),
        color: ColorSet::try_from("WG").unwrap(),
        color_identity: ColorSet::try_from("WUG").unwrap(),
        power: Some(Number::N(2)),
        pt: Some((Number::N(2), Number::Star)),
        loyalty: None,
        defense: None,
        type_line: vec!["Creature".to_string()],
    }
}

#[test]
fn object_names() {
    assert_eq!(object(&[], &[]).print_name(), "");
    assert_eq!(object(&["Bear"], &[]).print_name(), "Bear");
    assert_eq!(object(&["Fire", "Ice"], &[]).print_name(), "Fire // Ice");
}

#[test]
fn object_mana_values() {
    let o = object(&["Fire", "Ice"], &["{1}{R}", "{1}{U}{X}", "{R/2}"]);
    assert_eq!(o.total_mana_value(), 6);
    assert_eq!(o.mana_values(), vec![2, 2, 2]);
    assert_eq!(object(&[], &[]).total_mana_value(), 0);
}

#[test]
fn object_colors() {
    let o = object(&["Bear"], &[]);
    assert_eq!(o.color(), "GW");
    assert_eq!(o.color_identity(), "GWU");
}
