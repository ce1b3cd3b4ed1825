//! Languages the notification messages can be delivered in, with lookup by
//! language tag, chat-platform locale, or country code, and the message
//! fallback chain.

use vstd::prelude::*;
use vstd::string::StringExecFns;
use crate::animation_lang::AnimationLanguage;
use crate::strutil::{dec_digits, str_eq, u64_to_string};

verus! {

#[derive(Copy, Clone, Eq, PartialEq, Structural, Hash, Debug)]
pub enum Language {
    ChineseChina,
    ChineseTaiwan,
    Dutch,
    EnglishUnitedKingdom,
    EnglishUnitedStates,
    FrenchCanada,
    FrenchFrance,
    German,
    Italian,
    Japanese,
    Korean,
    Russian,
    SpanishLatinAmerica,
    SpanishSpain,
}

impl Default for Language {
    /// Messages fall back to United States English.
    fn default() -> (r: Self)
        ensures
            r == Language::EnglishUnitedStates,
    {
        Language::EnglishUnitedStates
    }
}

impl Language {
    /// Every supported language, in canonical order.
    pub fn supported_languages() -> (r: Vec<Language>)
        ensures
            r@ == Language::all_languages(),
    {
        let r = vec![
            Language::ChineseChina,
            Language::ChineseTaiwan,
            Language::Dutch,
            Language::EnglishUnitedKingdom,
            Language::EnglishUnitedStates,
            Language::FrenchCanada,
            Language::FrenchFrance,
            Language::German,
            Language::Italian,
            Language::Japanese,
            Language::Korean,
            Language::Russian,
            Language::SpanishLatinAmerica,
            Language::SpanishSpain,
        ];
        proof {
            assert(r@ =~= Language::all_languages());
        }
        r
    }

    pub open spec fn all_languages() -> Seq<Language> {
        seq![
            Language::ChineseChina,
            Language::ChineseTaiwan,
            Language::Dutch,
            Language::EnglishUnitedKingdom,
            Language::EnglishUnitedStates,
            Language::FrenchCanada,
            Language::FrenchFrance,
            Language::German,
            Language::Italian,
            Language::Japanese,
            Language::Korean,
            Language::Russian,
            Language::SpanishLatinAmerica,
            Language::SpanishSpain,
        ]
    }

    pub open spec fn spec_guess_from_country(s: Seq<char>) -> Option<Language> {
        if s == "CN"@ {
            Some(Language::ChineseChina)
        } else if s == "TW"@ {
            Some(Language::ChineseTaiwan)
        } else if s == "NL"@ || s == "SR"@ {
            Some(Language::Dutch)
        } else if s == "GB"@ {
            Some(Language::EnglishUnitedKingdom)
        } else if s == "US"@ || s == "CA"@ {
            Some(Language::EnglishUnitedStates)
        } else if s == "FR"@ || s == "GF"@ {
            Some(Language::FrenchFrance)
        } else if s == "DE"@ {
            Some(Language::German)
        } else if s == "IT"@ {
            Some(Language::Italian)
        } else if s == "JP"@ {
            Some(Language::Japanese)
        } else if s == "KR"@ {
            Some(Language::Korean)
        } else if s == "RU"@ {
            Some(Language::Russian)
        } else if s == "AR"@ || s == "BO"@ || s == "CL"@ || s == "CO"@ || s == "CR"@ || s
            == "EC"@ || s == "SV"@ || s == "GT"@ || s == "HN"@ || s == "MX"@ || s == "NI"@ || s
            == "PA"@ || s == "PY"@ || s == "PE"@ || s == "UY"@ || s == "VE"@ {
            Some(Language::SpanishLatinAmerica)
        } else if s == "ES"@ {
            Some(Language::SpanishSpain)
        } else {
            None
        }
    }

    /// Best-effort language for a two-letter country code.
    pub fn guess_from_country(country: &str) -> (r: Option<Language>)
        ensures
            r == Language::spec_guess_from_country(country@),
    {
        if str_eq(country, "CN") {
            Some(Language::ChineseChina)
        } else if str_eq(country, "TW") {
            Some(Language::ChineseTaiwan)
        } else if str_eq(country, "NL") || str_eq(country, "SR") {
            Some(Language::Dutch)
        } else if str_eq(country, "GB") {
            Some(Language::EnglishUnitedKingdom)
        } else if str_eq(country, "US") || str_eq(country, "CA") {
            Some(Language::EnglishUnitedStates)
        } else if str_eq(country, "FR") || str_eq(country, "GF") {
            Some(Language::FrenchFrance)
        } else if str_eq(country, "DE") {
            Some(Language::German)
        } else if str_eq(country, "IT") {
            Some(Language::Italian)
        } else if str_eq(country, "JP") {
            Some(Language::Japanese)
        } else if str_eq(country, "KR") {
            Some(Language::Korean)
        } else if str_eq(country, "RU") {
            Some(Language::Russian)
        } else if str_eq(country, "AR") || str_eq(country, "BO") || str_eq(country, "CL")
            || str_eq(country, "CO") || str_eq(country, "CR") || str_eq(country, "EC")
            || str_eq(country, "SV") || str_eq(country, "GT") || str_eq(country, "HN")
            || str_eq(country, "MX") || str_eq(country, "NI") || str_eq(country, "PA")
            || str_eq(country, "PY") || str_eq(country, "PE") || str_eq(country, "UY")
            || str_eq(country, "VE") {
            Some(Language::SpanishLatinAmerica)
        } else if str_eq(country, "ES") {
            Some(Language::SpanishSpain)
        } else {
            None
        }
    }

    pub open spec fn spec_id(self) -> Seq<char> {
        match self {
            Language::ChineseChina => "zh-CN"@,
            Language::ChineseTaiwan => "zh-TW"@,
            Language::Dutch => "nl-NL"@,
            Language::EnglishUnitedKingdom => "en-GB"@,
            Language::EnglishUnitedStates => "en-US"@,
            Language::FrenchCanada => "fr-CA"@,
            Language::FrenchFrance => "fr-FR"@,
            Language::German => "de-DE"@,
            Language::Italian => "it-IT"@,
            Language::Japanese => "ja-JP"@,
            Language::Korean => "ko-KR"@,
            Language::Russian => "ru-RU"@,
            Language::SpanishLatinAmerica => "es-419"@,
            Language::SpanishSpain => "es-ES"@,
        }
    }

    /// The language's IETF tag.
    pub fn id(&self) -> (r: &'static str)
        ensures
            r@ == self.spec_id(),
    {
        match self {
            Language::ChineseChina => "zh-CN",
            Language::ChineseTaiwan => "zh-TW",
            Language::Dutch => "nl-NL",
            Language::EnglishUnitedKingdom => "en-GB",
            Language::EnglishUnitedStates => "en-US",
            Language::FrenchCanada => "fr-CA",
            Language::FrenchFrance => "fr-FR",
            Language::German => "de-DE",
            Language::Italian => "it-IT",
            Language::Japanese => "ja-JP",
            Language::Korean => "ko-KR",
            Language::Russian => "ru-RU",
            Language::SpanishLatinAmerica => "es-419",
            Language::SpanishSpain => "es-ES",
        }
    }

    pub open spec fn spec_from_id(s: Seq<char>) -> Option<Language> {
        if s == "zh-CN"@ {
            Some(Language::ChineseChina)
        } else if s == "zh-TW"@ {
            Some(Language::ChineseTaiwan)
        } else if s == "nl-NL"@ {
            Some(Language::Dutch)
        } else if s == "en-GB"@ {
            Some(Language::EnglishUnitedKingdom)
        } else if s == "en-US"@ {
            Some(Language::EnglishUnitedStates)
        } else if s == "fr-CA"@ {
            Some(Language::FrenchCanada)
        } else if s == "fr-FR"@ {
            Some(Language::FrenchFrance)
        } else if s == "de-DE"@ {
            Some(Language::German)
        } else if s == "it-IT"@ {
            Some(Language::Italian)
        } else if s == "ja-JP"@ {
            Some(Language::Japanese)
        } else if s == "ko-KR"@ {
            Some(Language::Korean)
        } else if s == "ru-RU"@ {
            Some(Language::Russian)
        } else if s == "es-419"@ {
            Some(Language::SpanishLatinAmerica)
        } else if s == "es-ES"@ {
            Some(Language::SpanishSpain)
        } else {
            None
        }
    }

    /// The language for an IETF tag, inverse of `id`.
    pub fn from_id(id: &str) -> (r: Option<Language>)
        ensures
            r == Language::spec_from_id(id@),
    {
        if str_eq(id, "zh-CN") {
            Some(Language::ChineseChina)
        } else if str_eq(id, "zh-TW") {
            Some(Language::ChineseTaiwan)
        } else if str_eq(id, "nl-NL") {
            Some(Language::Dutch)
        } else if str_eq(id, "en-GB") {
            Some(Language::EnglishUnitedKingdom)
        } else if str_eq(id, "en-US") {
            Some(Language::EnglishUnitedStates)
        } else if str_eq(id, "fr-CA") {
            Some(Language::FrenchCanada)
        } else if str_eq(id, "fr-FR") {
            Some(Language::FrenchFrance)
        } else if str_eq(id, "de-DE") {
            Some(Language::German)
        } else if str_eq(id, "it-IT") {
            Some(Language::Italian)
        } else if str_eq(id, "ja-JP") {
            Some(Language::Japanese)
        } else if str_eq(id, "ko-KR") {
            Some(Language::Korean)
        } else if str_eq(id, "ru-RU") {
            Some(Language::Russian)
        } else if str_eq(id, "es-419") {
            Some(Language::SpanishLatinAmerica)
        } else if str_eq(id, "es-ES") {
            Some(Language::SpanishSpain)
        } else {
            None
        }
    }

    /// The matching animation language of the graphic renderer.
    pub fn to_animation_language(&self) -> (r: AnimationLanguage)
        ensures
            r == self.spec_animation_language(),
    {
        match self {
            Language::ChineseChina => AnimationLanguage::CNzh,
            Language::ChineseTaiwan => AnimationLanguage::TWzh,
            Language::Dutch => AnimationLanguage::EUnl,
            Language::EnglishUnitedKingdom => AnimationLanguage::EUen,
            Language::EnglishUnitedStates => AnimationLanguage::USen,
            Language::FrenchCanada => AnimationLanguage::USfr,
            Language::FrenchFrance => AnimationLanguage::EUfr,
            Language::German => AnimationLanguage::EUde,
            Language::Italian => AnimationLanguage::EUit,
            Language::Japanese => AnimationLanguage::JPja,
            Language::Korean => AnimationLanguage::KRko,
            Language::Russian => AnimationLanguage::EUru,
            Language::SpanishLatinAmerica => AnimationLanguage::USes,
            Language::SpanishSpain => AnimationLanguage::EUes,
        }
    }

    pub open spec fn spec_animation_language(self) -> AnimationLanguage {
        match self {
            Language::ChineseChina => AnimationLanguage::CNzh,
            Language::ChineseTaiwan => AnimationLanguage::TWzh,
            Language::Dutch => AnimationLanguage::EUnl,
            Language::EnglishUnitedKingdom => AnimationLanguage::EUen,
            Language::EnglishUnitedStates => AnimationLanguage::USen,
            Language::FrenchCanada => AnimationLanguage::USfr,
            Language::FrenchFrance => AnimationLanguage::EUfr,
            Language::German => AnimationLanguage::EUde,
            Language::Italian => AnimationLanguage::EUit,
            Language::Japanese => AnimationLanguage::JPja,
            Language::Korean => AnimationLanguage::KRko,
            Language::Russian => AnimationLanguage::EUru,
            Language::SpanishLatinAmerica => AnimationLanguage::USes,
            Language::SpanishSpain => AnimationLanguage::EUes,
        }
    }

    /// The language's display name, as the graphic renderer spells it.
    pub fn name(&self) -> (r: &'static str)
        ensures
            r@ == self.spec_animation_language().spec_language_name(),
    {
        self.to_animation_language().language_name()
    }

    pub open spec fn spec_discord_id(self) -> Option<Seq<char>> {
        match self {
            Language::ChineseChina => Some("zh-CN"@),
            Language::ChineseTaiwan => Some("zh-TW"@),
            Language::Dutch => Some("nl"@),
            Language::EnglishUnitedKingdom => Some("en-GB"@),
            Language::EnglishUnitedStates => Some("en-US"@),
            Language::FrenchCanada => None,
            Language::FrenchFrance => Some("fr"@),
            Language::German => Some("de"@),
            Language::Italian => Some("it"@),
            Language::Japanese => Some("ja"@),
            Language::Korean => Some("ko"@),
            Language::Russian => Some("ru"@),
            Language::SpanishLatinAmerica => Some("es-419"@),
            Language::SpanishSpain => Some("es-ES"@),
        }
    }

    /// The chat platform's locale code for this language, where it has one.
    pub fn discord_id(&self) -> (r: Option<&'static str>)
        ensures
            match r {
                Some(s) => self.spec_discord_id() == Some(s@),
                None => self.spec_discord_id() is None,
            },
    {
        match self {
            Language::ChineseChina => Some("zh-CN"),
            Language::ChineseTaiwan => Some("zh-TW"),
            Language::Dutch => Some("nl"),
            Language::EnglishUnitedKingdom => Some("en-GB"),
            Language::EnglishUnitedStates => Some("en-US"),
            Language::FrenchCanada => None,
            Language::FrenchFrance => Some("fr"),
            Language::German => Some("de"),
            Language::Italian => Some("it"),
            Language::Japanese => Some("ja"),
            Language::Korean => Some("ko"),
            Language::Russian => Some("ru"),
            Language::SpanishLatinAmerica => Some("es-419"),
            Language::SpanishSpain => Some("es-ES"),
        }
    }

    pub open spec fn spec_from_discord_id(s: Seq<char>) -> Option<Language> {
        if s == "de"@ {
            Some(Language::German)
        } else if s == "en-GB"@ {
            Some(Language::EnglishUnitedKingdom)
        } else if s == "en-US"@ {
            Some(Language::EnglishUnitedStates)
        } else if s == "es-ES"@ {
            Some(Language::SpanishSpain)
        } else if s == "es-419"@ {
            Some(Language::SpanishLatinAmerica)
        } else if s == "fr"@ {
            Some(Language::FrenchFrance)
        } else if s == "it"@ {
            Some(Language::Italian)
        } else if s == "nl"@ {
            Some(Language::Dutch)
        } else if s == "ru"@ {
            Some(Language::Russian)
        } else if s == "zh-CN"@ {
            Some(Language::ChineseChina)
        } else if s == "ja"@ {
            Some(Language::Japanese)
        } else if s == "zh-TW"@ {
            Some(Language::ChineseTaiwan)
        } else if s == "ko"@ {
            Some(Language::Korean)
        } else {
            None
        }
    }

    /// The language for a chat platform locale code.
    pub fn from_discord_id(id: &str) -> (r: Option<Language>)
        ensures
            r == Language::spec_from_discord_id(id@),
    {
        if str_eq(id, "de") {
            Some(Language::German)
        } else if str_eq(id, "en-GB") {
            Some(Language::EnglishUnitedKingdom)
        } else if str_eq(id, "en-US") {
            Some(Language::EnglishUnitedStates)
        } else if str_eq(id, "es-ES") {
            Some(Language::SpanishSpain)
        } else if str_eq(id, "es-419") {
            Some(Language::SpanishLatinAmerica)
        } else if str_eq(id, "fr") {
            Some(Language::FrenchFrance)
        } else if str_eq(id, "it") {
            Some(Language::Italian)
        } else if str_eq(id, "nl") {
            Some(Language::Dutch)
        } else if str_eq(id, "ru") {
            Some(Language::Russian)
        } else if str_eq(id, "zh-CN") {
            Some(Language::ChineseChina)
        } else if str_eq(id, "ja") {
            Some(Language::Japanese)
        } else if str_eq(id, "zh-TW") {
            Some(Language::ChineseTaiwan)
        } else if str_eq(id, "ko") {
            Some(Language::Korean)
        } else {
            None
        }
    }

    pub open spec fn spec_specific_fallback(self) -> Option<Language> {
        match self {
            Language::EnglishUnitedKingdom => Some(Language::EnglishUnitedStates),
            Language::FrenchCanada => Some(Language::FrenchFrance),
            Language::SpanishLatinAmerica => Some(Language::SpanishSpain),
            _ => None,
        }
    }

    /// The regional variant a language's messages borrow from, if any.
    pub fn specific_fallback(&self) -> (r: Option<Language>)
        ensures
            r == self.spec_specific_fallback(),
    {
        match self {
            Language::EnglishUnitedKingdom => Some(Language::EnglishUnitedStates),
            Language::FrenchCanada => Some(Language::FrenchFrance),
            Language::SpanishLatinAmerica => Some(Language::SpanishSpain),
            _ => None,
        }
    }

    pub open spec fn spec_fallback(self) -> Option<Language> {
        match self.spec_specific_fallback() {
            Some(f) => Some(f),
            None => if self == Language::EnglishUnitedStates {
                None
            } else {
                Some(Language::EnglishUnitedStates)
            },
        }
    }

    /// The next language to try when a message has no translation: the
    /// regional variant first, then the default language; the default
    /// language itself has no fallback.
    pub fn fallback(&self) -> (r: Option<Language>)
        ensures
            r == self.spec_fallback(),
    {
        match self.specific_fallback() {
            Some(f) => Some(f),
            None => {
                if *self == Language::EnglishUnitedStates {
                    None
                } else {
                    Some(Language::EnglishUnitedStates)
                }
            },
        }
    }
}

impl Language {
    /// The localized name of the language command, where a translation
    /// exists.
    pub open spec fn spec_command_name_local(self) -> Option<Seq<char>> {
        match self {
            Language::EnglishUnitedStates => Some("language"@),
            Language::ChineseChina => Some("语言"@),
            Language::ChineseTaiwan => Some("語言"@),
            Language::Dutch => Some("taal"@),
            Language::FrenchFrance => Some("langue"@),
            Language::German => Some("sprache"@),
            Language::Italian => Some("lingua"@),
            Language::Japanese => Some("言語"@),
            Language::Korean => Some("언어"@),
            Language::Russian => Some("язык"@),
            Language::SpanishSpain => Some("lengua"@),
            _ => None,
        }
    }

    /// The name of the language command, resolved through the fallback
    /// chain: the language itself, its regional variant, then the default
    /// language.
    pub open spec fn spec_command_name(self) -> Seq<char> {
        match self.spec_command_name_local() {
            Some(s) => s,
            None => match self.spec_specific_fallback() {
                Some(f) => match f.spec_command_name_local() {
                    Some(s) => s,
                    None => "language"@,
                },
                None => "language"@,
            },
        }
    }

    /// The name the language command carries in this language.
    pub fn language_command_name(&self) -> (r: &'static str)
        ensures
            r@ == self.spec_command_name(),
    {
        match self {
            Language::EnglishUnitedStates => "language",
            Language::ChineseChina => "语言",
            Language::ChineseTaiwan => "語言",
            Language::Dutch => "taal",
            Language::EnglishUnitedKingdom => "language",
            Language::FrenchCanada => "langue",
            Language::FrenchFrance => "langue",
            Language::German => "sprache",
            Language::Italian => "lingua",
            Language::Japanese => "言語",
            Language::Korean => "언어",
            Language::Russian => "язык",
            Language::SpanishLatinAmerica => "lengua",
            Language::SpanishSpain => "lengua",
        }
    }

    /// What the language command does; translated only in the default
    /// language so far, so every language resolves to it.
    pub fn language_command_desc(&self) -> (r: &'static str)
        ensures
            r@ == "Changes the language this bot's messages will be shown to you in"@,
    {
        "Changes the language this bot's messages will be shown to you in"
    }

    /// What the language command's argument means.
    pub fn language_command_arg_desc(&self) -> (r: &'static str)
        ensures
            r@ == "The language to use. If not specified, the language of your Discord client is used"@,
    {
        "The language to use. If not specified, the language of your Discord client is used"
    }

    /// Confirms a language change, naming the new language.
    pub fn changed_language(&self, language: Language) -> (r: String)
        ensures
            r@ == "Bot language changed to "@
                + language.spec_animation_language().spec_language_name(),
    {
        let mut s = String::from_str("Bot language changed to ");
        s.append(language.name());
        proof {
            assert(s@ =~= "Bot language changed to "@
                + language.spec_animation_language().spec_language_name());
        }
        s
    }

    /// Greets a player whose channel survived a restart of the process.
    pub fn bot_crashed(&self, language_command: &CommandIdDisplay) -> (r: String)
        ensures
            r@ == "(the bot crashed and needed a restart; you may see some duplicated messages below; you may also have to set your "@
                + language_command.spec_rendered() + " again)"@,
    {
        let mut s = String::from_str(
            "(the bot crashed and needed a restart; you may see some duplicated messages below; you may also have to set your ",
        );
        let cmd = language_command.render();
        s.append(cmd.as_str());
        s.append(" again)");
        proof {
            assert(s@
                =~= "(the bot crashed and needed a restart; you may see some duplicated messages below; you may also have to set your "@
                + language_command.spec_rendered() + " again)"@);
        }
        s
    }

    /// Explains a player's private notification channel to them.
    pub fn channel_explanation(&self, user_mention: &str) -> (r: String)
        ensures
            r@ == user_mention@
                + " in this channel, you will receive live updates for your Switzerland Power throughout the tournament."@,
    {
        let mut s = String::from_str(user_mention);
        s.append(
            " in this channel, you will receive live updates for your Switzerland Power throughout the tournament.",
        );
        proof {
            assert(s@ =~= user_mention@
                + " in this channel, you will receive live updates for your Switzerland Power throughout the tournament."@);
        }
        s
    }

    /// Points a player at the language command.
    pub fn language_command_explanation(&self, command: &CommandIdDisplay) -> (r: String)
        ensures
            r@ == "You can use the "@ + command.spec_rendered()
                + " command to change languages for these messages. (Translations are best effort and some or most may be missing.)"@,
    {
        let mut s = String::from_str("You can use the ");
        let cmd = command.render();
        s.append(cmd.as_str());
        s.append(
            " command to change languages for these messages. (Translations are best effort and some or most may be missing.)",
        );
        proof {
            assert(s@ =~= "You can use the "@ + command.spec_rendered()
                + " command to change languages for these messages. (Translations are best effort and some or most may be missing.)"@);
        }
        s
    }
}

/// A chat-platform slash-command reference: command name and numeric id,
/// rendered as a clickable mention.
pub struct CommandIdDisplay(pub String, pub u64);

impl CommandIdDisplay {
    /// The command mention in the chat platform's markup.
    pub open spec fn spec_rendered(self) -> Seq<char> {
        "</"@ + self.0@ + ":"@ + dec_digits(self.1 as nat) + ">"@
    }

    /// Renders the command mention in the chat platform's markup.
    pub fn render(&self) -> (r: String)
        ensures
            r@ == self.spec_rendered(),
    {
        let mut s = String::from_str("</");
        s.append(self.0.as_str());
        s.append(":");
        let num = u64_to_string(self.1);
        s.append(num.as_str());
        s.append(">");
        proof {
            assert(s@ =~= "</"@ + self.0@ + ":"@ + dec_digits(self.1 as nat) + ">"@);
        }
        s
    }
}

} // verus!
