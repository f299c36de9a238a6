use game_engines::fluent::AvailableLocales;

#[test]
fn test_available_locales_from_str() {
    assert_eq!(AvailableLocales::from_str("en-US"), Some(AvailableLocales::AmericanEnglish));
    assert_eq!(AvailableLocales::from_str("es-ES"), Some(AvailableLocales::EuropeanSpanish));
    assert_eq!(AvailableLocales::from_str("fr"), Some(AvailableLocales::French));
    assert_eq!(AvailableLocales::from_str("nl"), Some(AvailableLocales::Dutch));
    assert_eq!(AvailableLocales::from_str("de"), None);
}
