//! Languages: which flag stands for which, and what each is called.

use vstd::prelude::*;

use crate::text;

verus! {

/// The language code that a flag emoji stands for.
pub open spec fn flag_language(flag: Seq<char>) -> Option<Seq<char>> {
    if flag == "🇬🇧"@ || flag == "🇺🇸"@ || flag == "🇦🇺"@ || flag == "🇨🇦"@ || flag == "🇮🇪"@ || flag == "🇳🇿"@ {
        Some("en"@)
    } else if flag == "🇩🇪"@ || flag == "🇦🇹"@ {
        Some("de"@)
    } else if flag == "🇺🇦"@ {
        Some("uk"@)
    } else if flag == "🇫🇷"@ || flag == "🇧🇪"@ || flag == "🇲🇨"@ {
        Some("fr"@)
    } else if flag == "🇪🇸"@ || flag == "🇲🇽"@ || flag == "🇦🇷"@ || flag == "🇨🇴"@ || flag == "🇨🇱"@ {
        Some("es"@)
    } else if flag == "🇷🇺"@ || flag == "🇧🇾"@ {
        Some("ru"@)
    } else if flag == "🇮🇹"@ || flag == "🇸🇲"@ {
        Some("it"@)
    } else if flag == "🇵🇱"@ {
        Some("pl"@)
    } else if flag == "🇳🇱"@ {
        Some("nl"@)
    } else if flag == "🇵🇹"@ || flag == "🇧🇷"@ {
        Some("pt"@)
    } else if flag == "🇯🇵"@ {
        Some("ja"@)
    } else if flag == "🇨🇳"@ || flag == "🇹🇼"@ || flag == "🇭🇰"@ {
        Some("zh"@)
    } else if flag == "🇸🇦"@ || flag == "🇦🇪"@ || flag == "🇪🇬"@ || flag == "🇲🇦"@ || flag == "🇩🇿"@ {
        Some("ar"@)
    } else if flag == "🇹🇷"@ {
        Some("tr"@)
    } else if flag == "🇸🇪"@ {
        Some("sv"@)
    } else if flag == "🇫🇮"@ {
        Some("fi"@)
    } else if flag == "🇩🇰"@ {
        Some("da"@)
    } else if flag == "🇨🇿"@ {
        Some("cs"@)
    } else if flag == "🇭🇺"@ {
        Some("hu"@)
    } else if flag == "🇷🇴"@ {
        Some("ro"@)
    } else if flag == "🇬🇷"@ {
        Some("el"@)
    } else if flag == "🇮🇱"@ {
        Some("he"@)
    } else if flag == "🇰🇷"@ {
        Some("ko"@)
    } else if flag == "🇹🇭"@ {
        Some("th"@)
    } else if flag == "🇻🇳"@ {
        Some("vi"@)
    } else if flag == "🇮🇩"@ || flag == "🇲🇾"@ {
        Some("id"@)
    } else {
        None
    }
}

/// Whether `code` is one of the language codes that the bot knows.
pub open spec fn is_language(code: Seq<char>) -> bool {
    ||| code == "en"@
    ||| code == "de"@
    ||| code == "uk"@
    ||| code == "fr"@
    ||| code == "es"@
    ||| code == "ru"@
    ||| code == "it"@
    ||| code == "pl"@
    ||| code == "nl"@
    ||| code == "pt"@
    ||| code == "ja"@
    ||| code == "zh"@
    ||| code == "ar"@
    ||| code == "tr"@
    ||| code == "sv"@
    ||| code == "fi"@
    ||| code == "da"@
    ||| code == "cs"@
    ||| code == "hu"@
    ||| code == "ro"@
    ||| code == "el"@
    ||| code == "he"@
    ||| code == "ko"@
    ||| code == "th"@
    ||| code == "vi"@
    ||| code == "id"@
}

/// The English name of a language code.
pub open spec fn language_name(code: Seq<char>) -> Seq<char> {
    if code == "en"@ {
        "English"@
    } else if code == "de"@ {
        "German"@
    } else if code == "uk"@ {
        "Ukrainian"@
    } else if code == "fr"@ {
        "French"@
    } else if code == "es"@ {
        "Spanish"@
    } else if code == "ru"@ {
        "Russian"@
    } else if code == "it"@ {
        "Italian"@
    } else if code == "pl"@ {
        "Polish"@
    } else if code == "nl"@ {
        "Dutch"@
    } else if code == "pt"@ {
        "Portuguese"@
    } else if code == "ja"@ {
        "Japanese"@
    } else if code == "zh"@ {
        "Chinese"@
    } else if code == "ar"@ {
        "Arabic"@
    } else if code == "tr"@ {
        "Turkish"@
    } else if code == "sv"@ {
        "Swedish"@
    } else if code == "fi"@ {
        "Finnish"@
    } else if code == "da"@ {
        "Danish"@
    } else if code == "cs"@ {
        "Czech"@
    } else if code == "hu"@ {
        "Hungarian"@
    } else if code == "ro"@ {
        "Romanian"@
    } else if code == "el"@ {
        "Greek"@
    } else if code == "he"@ {
        "Hebrew"@
    } else if code == "ko"@ {
        "Korean"@
    } else if code == "th"@ {
        "Thai"@
    } else if code == "vi"@ {
        "Vietnamese"@
    } else if code == "id"@ {
        "Indonesian"@
    } else {
        "unknown"@
    }
}

/// A number made of the two letters of a language code.
pub open spec fn code_key(code: Seq<char>) -> int {
    code[0] as int * 128 + code[1] as int
}

/// The language codes are told apart by their letters.
proof fn lemma_codes_differ()
    ensures
        code_key("en"@) == 13038,
        code_key("de"@) == 12901,
        code_key("uk"@) == 15083,
        code_key("fr"@) == 13170,
        code_key("es"@) == 13043,
        code_key("ru"@) == 14709,
        code_key("it"@) == 13556,
        code_key("pl"@) == 14444,
        code_key("nl"@) == 14188,
        code_key("pt"@) == 14452,
        code_key("ja"@) == 13665,
        code_key("zh"@) == 15720,
        code_key("ar"@) == 12530,
        code_key("tr"@) == 14962,
        code_key("sv"@) == 14838,
        code_key("fi"@) == 13161,
        code_key("da"@) == 12897,
        code_key("cs"@) == 12787,
        code_key("hu"@) == 13429,
        code_key("ro"@) == 14703,
        code_key("el"@) == 13036,
        code_key("he"@) == 13413,
        code_key("ko"@) == 13807,
        code_key("th"@) == 14952,
        code_key("vi"@) == 15209,
        code_key("id"@) == 13540,
{
    reveal_strlit("en");
    reveal_strlit("de");
    reveal_strlit("uk");
    reveal_strlit("fr");
    reveal_strlit("es");
    reveal_strlit("ru");
    reveal_strlit("it");
    reveal_strlit("pl");
    reveal_strlit("nl");
    reveal_strlit("pt");
    reveal_strlit("ja");
    reveal_strlit("zh");
    reveal_strlit("ar");
    reveal_strlit("tr");
    reveal_strlit("sv");
    reveal_strlit("fi");
    reveal_strlit("da");
    reveal_strlit("cs");
    reveal_strlit("hu");
    reveal_strlit("ro");
    reveal_strlit("el");
    reveal_strlit("he");
    reveal_strlit("ko");
    reveal_strlit("th");
    reveal_strlit("vi");
    reveal_strlit("id");
}

/// Maps a flag emoji to a language code; unknown flags map to nothing.
pub fn flag_to_lang(flag: &str) -> (r: Option<&'static str>)
    ensures
        r is Some == flag_language(flag@) is Some,
        r matches Some(code) ==> Some(code@) == flag_language(flag@),
        r matches Some(code) ==> (code@ == "en"@ ==> flag@ == "🇬🇧"@ || flag@ == "🇺🇸"@ || flag@ == "🇦🇺"@ || flag@ == "🇨🇦"@ || flag@ == "🇮🇪"@ || flag@ == "🇳🇿"@),
        r matches Some(code) ==> (code@ == "de"@ ==> flag@ == "🇩🇪"@ || flag@ == "🇦🇹"@),
        r matches Some(code) ==> (code@ == "uk"@ ==> flag@ == "🇺🇦"@),
        r matches Some(code) ==> (code@ == "fr"@ ==> flag@ == "🇫🇷"@ || flag@ == "🇧🇪"@ || flag@ == "🇲🇨"@),
        r matches Some(code) ==> (code@ == "es"@ ==> flag@ == "🇪🇸"@ || flag@ == "🇲🇽"@ || flag@ == "🇦🇷"@ || flag@ == "🇨🇴"@ || flag@ == "🇨🇱"@),
        r matches Some(code) ==> (code@ == "ru"@ ==> flag@ == "🇷🇺"@ || flag@ == "🇧🇾"@),
        r matches Some(code) ==> (code@ == "it"@ ==> flag@ == "🇮🇹"@ || flag@ == "🇸🇲"@),
        r matches Some(code) ==> (code@ == "pl"@ ==> flag@ == "🇵🇱"@),
        r matches Some(code) ==> (code@ == "nl"@ ==> flag@ == "🇳🇱"@),
        r matches Some(code) ==> (code@ == "pt"@ ==> flag@ == "🇵🇹"@ || flag@ == "🇧🇷"@),
        r matches Some(code) ==> (code@ == "ja"@ ==> flag@ == "🇯🇵"@),
        r matches Some(code) ==> (code@ == "zh"@ ==> flag@ == "🇨🇳"@ || flag@ == "🇹🇼"@ || flag@ == "🇭🇰"@),
        r matches Some(code) ==> (code@ == "ar"@ ==> flag@ == "🇸🇦"@ || flag@ == "🇦🇪"@ || flag@ == "🇪🇬"@ || flag@ == "🇲🇦"@ || flag@ == "🇩🇿"@),
        r matches Some(code) ==> (code@ == "tr"@ ==> flag@ == "🇹🇷"@),
        r matches Some(code) ==> (code@ == "sv"@ ==> flag@ == "🇸🇪"@),
        r matches Some(code) ==> (code@ == "fi"@ ==> flag@ == "🇫🇮"@),
        r matches Some(code) ==> (code@ == "da"@ ==> flag@ == "🇩🇰"@),
        r matches Some(code) ==> (code@ == "cs"@ ==> flag@ == "🇨🇿"@),
        r matches Some(code) ==> (code@ == "hu"@ ==> flag@ == "🇭🇺"@),
        r matches Some(code) ==> (code@ == "ro"@ ==> flag@ == "🇷🇴"@),
        r matches Some(code) ==> (code@ == "el"@ ==> flag@ == "🇬🇷"@),
        r matches Some(code) ==> (code@ == "he"@ ==> flag@ == "🇮🇱"@),
        r matches Some(code) ==> (code@ == "ko"@ ==> flag@ == "🇰🇷"@),
        r matches Some(code) ==> (code@ == "th"@ ==> flag@ == "🇹🇭"@),
        r matches Some(code) ==> (code@ == "vi"@ ==> flag@ == "🇻🇳"@),
        r matches Some(code) ==> (code@ == "id"@ ==> flag@ == "🇮🇩"@ || flag@ == "🇲🇾"@),
{
    proof {
        lemma_codes_differ();
    }
    if text::same_text(flag, "🇬🇧") || text::same_text(flag, "🇺🇸") || text::same_text(flag, "🇦🇺") || text::same_text(flag, "🇨🇦") || text::same_text(flag, "🇮🇪") || text::same_text(flag, "🇳🇿") {
        Some("en")
    } else if text::same_text(flag, "🇩🇪") || text::same_text(flag, "🇦🇹") {
        Some("de")
    } else if text::same_text(flag, "🇺🇦") {
        Some("uk")
    } else if text::same_text(flag, "🇫🇷") || text::same_text(flag, "🇧🇪") || text::same_text(flag, "🇲🇨") {
        Some("fr")
    } else if text::same_text(flag, "🇪🇸") || text::same_text(flag, "🇲🇽") || text::same_text(flag, "🇦🇷") || text::same_text(flag, "🇨🇴") || text::same_text(flag, "🇨🇱") {
        Some("es")
    } else if text::same_text(flag, "🇷🇺") || text::same_text(flag, "🇧🇾") {
        Some("ru")
    } else if text::same_text(flag, "🇮🇹") || text::same_text(flag, "🇸🇲") {
        Some("it")
    } else if text::same_text(flag, "🇵🇱") {
        Some("pl")
    } else if text::same_text(flag, "🇳🇱") {
        Some("nl")
    } else if text::same_text(flag, "🇵🇹") || text::same_text(flag, "🇧🇷") {
        Some("pt")
    } else if text::same_text(flag, "🇯🇵") {
        Some("ja")
    } else if text::same_text(flag, "🇨🇳") || text::same_text(flag, "🇹🇼") || text::same_text(flag, "🇭🇰") {
        Some("zh")
    } else if text::same_text(flag, "🇸🇦") || text::same_text(flag, "🇦🇪") || text::same_text(flag, "🇪🇬") || text::same_text(flag, "🇲🇦") || text::same_text(flag, "🇩🇿") {
        Some("ar")
    } else if text::same_text(flag, "🇹🇷") {
        Some("tr")
    } else if text::same_text(flag, "🇸🇪") {
        Some("sv")
    } else if text::same_text(flag, "🇫🇮") {
        Some("fi")
    } else if text::same_text(flag, "🇩🇰") {
        Some("da")
    } else if text::same_text(flag, "🇨🇿") {
        Some("cs")
    } else if text::same_text(flag, "🇭🇺") {
        Some("hu")
    } else if text::same_text(flag, "🇷🇴") {
        Some("ro")
    } else if text::same_text(flag, "🇬🇷") {
        Some("el")
    } else if text::same_text(flag, "🇮🇱") {
        Some("he")
    } else if text::same_text(flag, "🇰🇷") {
        Some("ko")
    } else if text::same_text(flag, "🇹🇭") {
        Some("th")
    } else if text::same_text(flag, "🇻🇳") {
        Some("vi")
    } else if text::same_text(flag, "🇮🇩") || text::same_text(flag, "🇲🇾") {
        Some("id")
    } else {
        None
    }
}

/// The canonical form of a language code; unsupported codes have none.
pub fn text_code_to_lang(code: &str) -> (r: Option<&'static str>)
    ensures
        r is Some == is_language(code@),
        r matches Some(c) ==> c@ == code@,
{
    if text::same_text(code, "en") {
        Some("en")
    } else if text::same_text(code, "de") {
        Some("de")
    } else if text::same_text(code, "uk") {
        Some("uk")
    } else if text::same_text(code, "fr") {
        Some("fr")
    } else if text::same_text(code, "es") {
        Some("es")
    } else if text::same_text(code, "ru") {
        Some("ru")
    } else if text::same_text(code, "it") {
        Some("it")
    } else if text::same_text(code, "pl") {
        Some("pl")
    } else if text::same_text(code, "nl") {
        Some("nl")
    } else if text::same_text(code, "pt") {
        Some("pt")
    } else if text::same_text(code, "ja") {
        Some("ja")
    } else if text::same_text(code, "zh") {
        Some("zh")
    } else if text::same_text(code, "ar") {
        Some("ar")
    } else if text::same_text(code, "tr") {
        Some("tr")
    } else if text::same_text(code, "sv") {
        Some("sv")
    } else if text::same_text(code, "fi") {
        Some("fi")
    } else if text::same_text(code, "da") {
        Some("da")
    } else if text::same_text(code, "cs") {
        Some("cs")
    } else if text::same_text(code, "hu") {
        Some("hu")
    } else if text::same_text(code, "ro") {
        Some("ro")
    } else if text::same_text(code, "el") {
        Some("el")
    } else if text::same_text(code, "he") {
        Some("he")
    } else if text::same_text(code, "ko") {
        Some("ko")
    } else if text::same_text(code, "th") {
        Some("th")
    } else if text::same_text(code, "vi") {
        Some("vi")
    } else if text::same_text(code, "id") {
        Some("id")
    } else {
        None
    }
}

/// The English name of a language code, "unknown" for any other text.
pub fn lang_label(code: &str) -> (r: &'static str)
    ensures
        r@ == language_name(code@),
        code@ == "en"@ ==> r@ == "English"@,
        code@ == "de"@ ==> r@ == "German"@,
        code@ == "uk"@ ==> r@ == "Ukrainian"@,
        code@ == "fr"@ ==> r@ == "French"@,
        code@ == "es"@ ==> r@ == "Spanish"@,
        code@ == "ru"@ ==> r@ == "Russian"@,
        code@ == "it"@ ==> r@ == "Italian"@,
        code@ == "pl"@ ==> r@ == "Polish"@,
        code@ == "nl"@ ==> r@ == "Dutch"@,
        code@ == "pt"@ ==> r@ == "Portuguese"@,
        code@ == "ja"@ ==> r@ == "Japanese"@,
        code@ == "zh"@ ==> r@ == "Chinese"@,
        code@ == "ar"@ ==> r@ == "Arabic"@,
        code@ == "tr"@ ==> r@ == "Turkish"@,
        code@ == "sv"@ ==> r@ == "Swedish"@,
        code@ == "fi"@ ==> r@ == "Finnish"@,
        code@ == "da"@ ==> r@ == "Danish"@,
        code@ == "cs"@ ==> r@ == "Czech"@,
        code@ == "hu"@ ==> r@ == "Hungarian"@,
        code@ == "ro"@ ==> r@ == "Romanian"@,
        code@ == "el"@ ==> r@ == "Greek"@,
        code@ == "he"@ ==> r@ == "Hebrew"@,
        code@ == "ko"@ ==> r@ == "Korean"@,
        code@ == "th"@ ==> r@ == "Thai"@,
        code@ == "vi"@ ==> r@ == "Vietnamese"@,
        code@ == "id"@ ==> r@ == "Indonesian"@,
{
    proof {
        lemma_codes_differ();
    }
    if text::same_text(code, "en") {
        "English"
    } else if text::same_text(code, "de") {
        "German"
    } else if text::same_text(code, "uk") {
        "Ukrainian"
    } else if text::same_text(code, "fr") {
        "French"
    } else if text::same_text(code, "es") {
        "Spanish"
    } else if text::same_text(code, "ru") {
        "Russian"
    } else if text::same_text(code, "it") {
        "Italian"
    } else if text::same_text(code, "pl") {
        "Polish"
    } else if text::same_text(code, "nl") {
        "Dutch"
    } else if text::same_text(code, "pt") {
        "Portuguese"
    } else if text::same_text(code, "ja") {
        "Japanese"
    } else if text::same_text(code, "zh") {
        "Chinese"
    } else if text::same_text(code, "ar") {
        "Arabic"
    } else if text::same_text(code, "tr") {
        "Turkish"
    } else if text::same_text(code, "sv") {
        "Swedish"
    } else if text::same_text(code, "fi") {
        "Finnish"
    } else if text::same_text(code, "da") {
        "Danish"
    } else if text::same_text(code, "cs") {
        "Czech"
    } else if text::same_text(code, "hu") {
        "Hungarian"
    } else if text::same_text(code, "ro") {
        "Romanian"
    } else if text::same_text(code, "el") {
        "Greek"
    } else if text::same_text(code, "he") {
        "Hebrew"
    } else if text::same_text(code, "ko") {
        "Korean"
    } else if text::same_text(code, "th") {
        "Thai"
    } else if text::same_text(code, "vi") {
        "Vietnamese"
    } else if text::same_text(code, "id") {
        "Indonesian"
    } else {
        "unknown"
    }
}

/// Every flag that is recognised stands for a supported language.
pub proof fn law_flags_name_supported_languages(flag: Seq<char>)
    ensures
        flag_language(flag) matches Some(code) ==> is_language(code),
{
}

/// A number made of the two characters of a flag.
spec fn flag_key(flag: Seq<char>) -> int {
    flag[0] as int * 0x20_0000 + flag[1] as int
}

/// Every language has a flag that stands for it.
pub proof fn law_every_language_has_a_flag(code: Seq<char>)
    requires
        is_language(code),
    ensures
        exists|flag: Seq<char>| #[trigger] flag_language(flag) == Some(code),
{
    reveal_strlit("🇬🇧");
    reveal_strlit("🇺🇸");
    reveal_strlit("🇦🇺");
    reveal_strlit("🇨🇦");
    reveal_strlit("🇮🇪");
    reveal_strlit("🇳🇿");
    reveal_strlit("🇩🇪");
    reveal_strlit("🇦🇹");
    reveal_strlit("🇺🇦");
    reveal_strlit("🇫🇷");
    reveal_strlit("🇧🇪");
    reveal_strlit("🇲🇨");
    reveal_strlit("🇪🇸");
    reveal_strlit("🇲🇽");
    reveal_strlit("🇦🇷");
    reveal_strlit("🇨🇴");
    reveal_strlit("🇨🇱");
    reveal_strlit("🇷🇺");
    reveal_strlit("🇧🇾");
    reveal_strlit("🇮🇹");
    reveal_strlit("🇸🇲");
    reveal_strlit("🇵🇱");
    reveal_strlit("🇳🇱");
    reveal_strlit("🇵🇹");
    reveal_strlit("🇧🇷");
    reveal_strlit("🇯🇵");
    reveal_strlit("🇨🇳");
    reveal_strlit("🇹🇼");
    reveal_strlit("🇭🇰");
    reveal_strlit("🇸🇦");
    reveal_strlit("🇦🇪");
    reveal_strlit("🇪🇬");
    reveal_strlit("🇲🇦");
    reveal_strlit("🇩🇿");
    reveal_strlit("🇹🇷");
    reveal_strlit("🇸🇪");
    reveal_strlit("🇫🇮");
    reveal_strlit("🇩🇰");
    reveal_strlit("🇨🇿");
    reveal_strlit("🇭🇺");
    reveal_strlit("🇷🇴");
    reveal_strlit("🇬🇷");
    reveal_strlit("🇮🇱");
    reveal_strlit("🇰🇷");
    reveal_strlit("🇹🇭");
    reveal_strlit("🇻🇳");
    reveal_strlit("🇮🇩");
    reveal_strlit("🇲🇾");
    assert(flag_key("🇬🇧"@) == 267319898599);
    assert(flag_key("🇺🇸"@) == 267349258744);
    assert(flag_key("🇦🇺"@) == 267307315706);
    assert(flag_key("🇨🇦"@) == 267311509990);
    assert(flag_key("🇮🇪"@) == 267324092906);
    assert(flag_key("🇳🇿"@) == 267334578687);
    assert(flag_key("🇩🇪"@) == 267313607146);
    assert(flag_key("🇦🇹"@) == 267307315705);
    assert(flag_key("🇺🇦"@) == 267349258726);
    assert(flag_key("🇫🇷"@) == 267317801463);
    assert(flag_key("🇧🇪"@) == 267309412842);
    assert(flag_key("🇲🇨"@) == 267332481512);
    assert(flag_key("🇪🇸"@) == 267315704312);
    assert(flag_key("🇲🇽"@) == 267332481533);
    assert(flag_key("🇦🇷"@) == 267307315703);
    assert(flag_key("🇨🇴"@) == 267311510004);
    assert(flag_key("🇨🇱"@) == 267311510001);
    assert(flag_key("🇷🇺"@) == 267342967290);
    assert(flag_key("🇧🇾"@) == 267309412862);
    assert(flag_key("🇮🇹"@) == 267324092921);
    assert(flag_key("🇸🇲"@) == 267345064434);
    assert(flag_key("🇵🇱"@) == 267338772977);
    assert(flag_key("🇳🇱"@) == 267334578673);
    assert(flag_key("🇵🇹"@) == 267338772985);
    assert(flag_key("🇧🇷"@) == 267309412855);
    assert(flag_key("🇯🇵"@) == 267326190069);
    assert(flag_key("🇨🇳"@) == 267311510003);
    assert(flag_key("🇹🇼"@) == 267347161596);
    assert(flag_key("🇭🇰"@) == 267321995760);
    assert(flag_key("🇸🇦"@) == 267345064422);
    assert(flag_key("🇦🇪"@) == 267307315690);
    assert(flag_key("🇪🇬"@) == 267315704300);
    assert(flag_key("🇲🇦"@) == 267332481510);
    assert(flag_key("🇩🇿"@) == 267313607167);
    assert(flag_key("🇹🇷"@) == 267347161591);
    assert(flag_key("🇸🇪"@) == 267345064426);
    assert(flag_key("🇫🇮"@) == 267317801454);
    assert(flag_key("🇩🇰"@) == 267313607152);
    assert(flag_key("🇨🇿"@) == 267311510015);
    assert(flag_key("🇭🇺"@) == 267321995770);
    assert(flag_key("🇷🇴"@) == 267342967284);
    assert(flag_key("🇬🇷"@) == 267319898615);
    assert(flag_key("🇮🇱"@) == 267324092913);
    assert(flag_key("🇰🇷"@) == 267328287223);
    assert(flag_key("🇹🇭"@) == 267347161581);
    assert(flag_key("🇻🇳"@) == 267351355891);
    assert(flag_key("🇮🇩"@) == 267324092905);
    assert(flag_key("🇲🇾"@) == 267332481534);
    if code == "en"@ {
        assert(flag_language("🇬🇧"@) == Some(code));
    } else if code == "de"@ {
        assert(flag_language("🇩🇪"@) == Some(code));
    } else if code == "uk"@ {
        assert(flag_language("🇺🇦"@) == Some(code));
    } else if code == "fr"@ {
        assert(flag_language("🇫🇷"@) == Some(code));
    } else if code == "es"@ {
        assert(flag_language("🇪🇸"@) == Some(code));
    } else if code == "ru"@ {
        assert(flag_language("🇷🇺"@) == Some(code));
    } else if code == "it"@ {
        assert(flag_language("🇮🇹"@) == Some(code));
    } else if code == "pl"@ {
        assert(flag_language("🇵🇱"@) == Some(code));
    } else if code == "nl"@ {
        assert(flag_language("🇳🇱"@) == Some(code));
    } else if code == "pt"@ {
        assert(flag_language("🇵🇹"@) == Some(code));
    } else if code == "ja"@ {
        assert(flag_language("🇯🇵"@) == Some(code));
    } else if code == "zh"@ {
        assert(flag_language("🇨🇳"@) == Some(code));
    } else if code == "ar"@ {
        assert(flag_language("🇸🇦"@) == Some(code));
    } else if code == "tr"@ {
        assert(flag_language("🇹🇷"@) == Some(code));
    } else if code == "sv"@ {
        assert(flag_language("🇸🇪"@) == Some(code));
    } else if code == "fi"@ {
        assert(flag_language("🇫🇮"@) == Some(code));
    } else if code == "da"@ {
        assert(flag_language("🇩🇰"@) == Some(code));
    } else if code == "cs"@ {
        assert(flag_language("🇨🇿"@) == Some(code));
    } else if code == "hu"@ {
        assert(flag_language("🇭🇺"@) == Some(code));
    } else if code == "ro"@ {
        assert(flag_language("🇷🇴"@) == Some(code));
    } else if code == "el"@ {
        assert(flag_language("🇬🇷"@) == Some(code));
    } else if code == "he"@ {
        assert(flag_language("🇮🇱"@) == Some(code));
    } else if code == "ko"@ {
        assert(flag_language("🇰🇷"@) == Some(code));
    } else if code == "th"@ {
        assert(flag_language("🇹🇭"@) == Some(code));
    } else if code == "vi"@ {
        assert(flag_language("🇻🇳"@) == Some(code));
    } else if code == "id"@ {
        assert(flag_language("🇮🇩"@) == Some(code));
    }
}

} // verus!
