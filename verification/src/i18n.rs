//! The two languages of the game.
use vstd::prelude::*;

use crate::text::str_eq;

verus! {

/// A display language.
#[derive(Clone, Copy, PartialEq, Eq, Debug, Structural)]
pub enum Locale {
    Fr,
    En,
}

/// The language a stored code stands for, if it is one we know.
pub open spec fn locale_of(code: Seq<char>) -> Option<Locale> {
    if code == "fr"@ {
        Some(Locale::Fr)
    } else if code == "en"@ {
        Some(Locale::En)
    } else {
        None
    }
}

/// The language of a user: French only when they chose it, English otherwise.
pub open spec fn user_locale(lang: Seq<char>) -> Locale {
    match locale_of(lang) {
        Some(loc) => loc,
        None => Locale::En,
    }
}

impl Locale {
    /// Picks the text in this language.
    pub open spec fn pick<T>(self, fr: T, en: T) -> T {
        match self {
            Locale::Fr => fr,
            Locale::En => en,
        }
    }

    /// Picks the French or the English text.
    pub fn f<'a>(self, fr: &'a str, en: &'a str) -> (r: &'a str)
        ensures
            r == self.pick(fr, en),
    {
        match self {
            Locale::Fr => fr,
            Locale::En => en,
        }
    }

    /// The language a stored code stands for.
    pub fn from_code(code: &str) -> (r: Option<Locale>)
        ensures
            r == locale_of(code@),
    {
        if str_eq(code, "fr") {
            Some(Locale::Fr)
        } else if str_eq(code, "en") {
            Some(Locale::En)
        } else {
            None
        }
    }

    /// The code under which this language is stored.
    pub fn code(self) -> (r: &'static str)
        ensures
            r@ == self.pick("fr"@, "en"@),
    {
        match self {
            Locale::Fr => "fr",
            Locale::En => "en",
        }
    }

    /// The language of a user whose stored code is `lang`.
    pub fn of_user(lang: &str) -> (r: Locale)
        ensures
            r == user_locale(lang@),
    {
        match Locale::from_code(lang) {
            Some(loc) => loc,
            None => Locale::En,
        }
    }
}

impl Default for Locale {
    fn default() -> (r: Self)
        ensures
            r == Locale::En,
    {
        Locale::En
    }
}

/// Reading back a stored code gives the language it was stored for.
pub proof fn code_round_trips(loc: Locale)
    ensures
        locale_of(loc.pick("fr"@, "en"@)) == Some(loc),
        user_locale(loc.pick("fr"@, "en"@)) == loc,
{
    reveal_strlit("fr");
    reveal_strlit("en");
    assert("fr"@[0] != "en"@[0]);
}

/// French is for those who chose it; everyone else reads English.
pub proof fn others_read_english(lang: Seq<char>)
    ensures
        lang == "fr"@ ==> user_locale(lang) == Locale::Fr,
        lang != "fr"@ ==> user_locale(lang) == Locale::En,
        locale_of(lang) is Some ==> lang == "fr"@ || lang == "en"@,
{
    reveal_strlit("fr");
    reveal_strlit("en");
    assert("fr"@[0] != "en"@[0]);
}

/// The codes of the languages are read back, and each text is given in the language
/// asked for.
pub proof fn texts_are_given_in_a_language(
    loc: Locale,
    fr: &'static str,
    en: &'static str,
    text: &'static str,
    code: &'static str,
    lang: &str,
    read: Option<Locale>,
    of: Locale,
)
    requires
        call_ensures(Locale::f, (loc, fr, en), text),
        call_ensures(Locale::code, (loc,), code),
        call_ensures(Locale::from_code, (lang,), read),
        call_ensures(Locale::of_user, (lang,), of),
    ensures
        loc == Locale::Fr ==> text == fr && code@ == "fr"@,
        loc == Locale::En ==> text == en && code@ == "en"@,
        lang@ == "fr"@ ==> read == Some(Locale::Fr) && of == Locale::Fr,
        lang@ == "en"@ ==> read == Some(Locale::En) && of == Locale::En,
        lang@ != "fr"@ && lang@ != "en"@ ==> read is None && of == Locale::En,
{
    others_read_english(lang@);
    reveal_strlit("fr");
    reveal_strlit("en");
    assert("fr"@[0] != "en"@[0]);
}

} // verus!
