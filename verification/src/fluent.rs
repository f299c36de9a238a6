//! The locales the host can ask for; the translation bundles themselves
//! are the host's business.

use vstd::prelude::*;

verus! {

/// The locales with a translation bundle.
#[derive(PartialEq, Eq, Structural, Clone, Copy, Debug)]
pub enum AvailableLocales {
    AmericanEnglish,
    EuropeanSpanish,
    French,
    Dutch,
}

impl AvailableLocales {
    /// The locale a language tag names, or nothing for an unknown tag.
    pub open spec fn spec_from(s: Seq<char>) -> Option<AvailableLocales> {
        if s == "en-US"@ {
            Some(AvailableLocales::AmericanEnglish)
        } else if s == "es-ES"@ {
            Some(AvailableLocales::EuropeanSpanish)
        } else if s == "fr"@ {
            Some(AvailableLocales::French)
        } else if s == "nl"@ {
            Some(AvailableLocales::Dutch)
        } else {
            None
        }
    }

    pub fn from_str(locale: &str) -> (r: Option<AvailableLocales>)
        ensures
            r == AvailableLocales::spec_from(locale@),
    {
        let l = locale.to_owned();
        if l == "en-US".to_owned() {
            Some(AvailableLocales::AmericanEnglish)
        } else if l == "es-ES".to_owned() {
            Some(AvailableLocales::EuropeanSpanish)
        } else if l == "fr".to_owned() {
            Some(AvailableLocales::French)
        } else if l == "nl".to_owned() {
            Some(AvailableLocales::Dutch)
        } else {
            None
        }
    }
}

} // verus!
