use zapfast::emoji_words::{fold, lookup, parse, EmojiTable, EmojiWords};
use zapfast::i18n::Locale;

/// A few lines of the Spanish CLDR table, in its `emoji<TAB>name|keyword...` form.
const SPANISH: &str = "❤\u{FE0F}\tcorazón rojo|amor|corazón|emoción\n\
🇨🇱\tbandera: Chile|bandera\n\
😂\tcara llorando de risa|cara|carcajada|lágrima|llorar de risa|risa\n\
🦀\tcangrejo|animal|cáncer|cangrejo|zodiaco\n";

fn table() -> EmojiTable {
    parse(SPANISH)
}

#[test]
fn spanish_keywords_ignore_accents_and_variation_selectors() {
    let table = table();
    let heart = lookup(&table, Locale::Spanish, "❤\u{FE0F}").expect("heart");
    assert!(heart.folded.contains("corazon"), "{}", heart.folded);
    let flag = lookup(&table, Locale::Spanish, "🇨🇱").expect("flag");
    assert!(flag.folded.contains("chile"), "{}", flag.folded);
    assert!(lookup(&table, Locale::English, "❤\u{FE0F}").is_none());
}

#[test]
fn spanish_shortcodes_come_from_the_cldr_name() {
    let table = table();
    let joy = lookup(&table, Locale::Spanish, "😂").expect("joy");
    assert_eq!(joy.shortcode(), ":cara_llorando_de_risa:");
    assert_eq!(joy.name, "cara llorando de risa");
    let chile = lookup(&table, Locale::Spanish, "🇨🇱").expect("flag");
    assert_eq!(chile.shortcode(), ":bandera_chile:");
    let crab = lookup(&table, Locale::Spanish, "🦀").expect("crab");
    assert_eq!(crab.match_score("cangrejo"), Some(2));
}

#[test]
fn fold_lowercases_and_strips_accents() {
    assert_eq!(fold("Corazón"), "corazon");
    assert_eq!(fold("NIÑO Ç Ü"), "nino c u");
    assert_eq!(fold("ÀÉÎÕü"), "aeiou");
    assert_eq!(fold(""), "");
}

fn words(folded: &str) -> EmojiWords {
    EmojiWords { name: folded.split('|').next().unwrap().to_string(), folded: folded.to_string() }
}

#[test]
fn match_score_ranks_name_word_keyword_and_substring() {
    let w = words("cara llorando de risa|carcajada|risa|lagrima");
    assert_eq!(w.match_score("cara llorando de risa"), Some(2));
    assert_eq!(w.match_score("llor"), Some(3));
    assert_eq!(w.match_score("risa"), Some(3));
    assert_eq!(w.match_score("carcaj"), Some(4));
    assert_eq!(w.match_score("grim"), Some(5));
    assert_eq!(w.match_score("perro"), None);
    assert_eq!(words("bandera: chile|bandera").match_score("chi"), Some(3));
}

#[test]
fn terms_split_the_folded_list() {
    let w = words("a b|c||d");
    assert_eq!(w.terms(), vec!["a b", "c", "", "d"]);
    assert_eq!(words("").terms(), vec![""]);
}

#[test]
fn shortcodes_drop_punctuation_runs() {
    assert_eq!(words("  mano--abierta:  ok ").shortcode(), ":mano_abierta_ok:");
    assert_eq!(words("").shortcode(), "::");
}

#[test]
fn later_lines_replace_earlier_ones_and_lines_without_tab_are_skipped() {
    let table = parse("x\tprimero\r\nsin tabulador\nx\tsegundo|a\r\ny\tfinal\r");
    let x = lookup(&table, Locale::Spanish, "x").expect("x");
    assert_eq!(x.name, "segundo");
    assert_eq!(x.folded, "segundo|a");
    let y = lookup(&table, Locale::Spanish, "y").expect("y");
    assert_eq!(y.name, "final\r");
    assert!(lookup(&table, Locale::Spanish, "sin tabulador").is_none());
}

/// `fold` written with std's iterator adapters.
fn fold_by_iterators(text: &str) -> String {
    text.chars()
        .flat_map(char::to_lowercase)
        .map(|c| match c {
            'á' | 'à' | 'â' | 'ä' | 'ã' => 'a',
            'é' | 'è' | 'ê' | 'ë' => 'e',
            'í' | 'ì' | 'î' | 'ï' => 'i',
            'ó' | 'ò' | 'ô' | 'ö' | 'õ' => 'o',
            'ú' | 'ù' | 'û' | 'ü' => 'u',
            'ñ' => 'n',
            'ç' => 'c',
            c => c,
        })
        .collect()
}

/// `match_score` written with `str`'s own searches.
fn score_by_str(folded: &str, query: &str) -> Option<u8> {
    let mut terms = folded.split('|');
    let name = terms.next().unwrap_or_default();
    if name == query {
        Some(2)
    } else if name.split([' ', '-', ':']).any(|word| word.starts_with(query))
        || terms.clone().any(|term| term == query)
    {
        Some(3)
    } else if terms.clone().any(|term| term.starts_with(query)) {
        Some(4)
    } else if folded.split('|').any(|term| term.contains(query)) {
        Some(5)
    } else {
        None
    }
}

/// `shortcode` written with `str`'s own splitting.
fn shortcode_by_str(folded: &str) -> String {
    let slug: Vec<&str> = folded
        .split('|')
        .next()
        .unwrap_or_default()
        .split(|c: char| !c.is_alphanumeric())
        .filter(|part| !part.is_empty())
        .collect();
    format!(":{}:", slug.join("_"))
}

const SAMPLES: [&str; 9] = [
    "",
    "İstanbul ΣΑΣ Straße",
    "Árbol ÑANDÚ çà",
    "cara llorando de risa|cara|carcajada",
    "bandera: chile|bandera",
    "a||b|",
    "|",
    "mano-abierta:ok|mano|ok",
    "日本 の 旗|日本|旗",
];

#[test]
fn fold_agrees_with_std_iterators() {
    for text in SAMPLES {
        assert_eq!(fold(text), fold_by_iterators(text), "{text:?}");
    }
}

#[test]
fn match_score_and_shortcode_agree_with_str_searches() {
    let queries = ["", "a", "cara", "car", "risa", "chile", "b", "mano", "ok", "abierta", "日本", "旗", "x", "|"];
    for folded in SAMPLES {
        let w = EmojiWords { name: String::new(), folded: folded.to_string() };
        for query in queries {
            assert_eq!(w.match_score(query), score_by_str(folded, query), "{folded:?} {query:?}");
        }
        assert_eq!(w.shortcode(), shortcode_by_str(folded), "{folded:?}");
    }
}

#[test]
fn parse_agrees_with_str_lines() {
    let tsv = "a\u{FE0F}\tuno|Úno\r\nb\tdos\r\r\nsin tab\n\nc\ttres|x\tdentro\r";
    let table = parse(tsv);
    let mut expected = std::collections::HashMap::new();
    for (emoji, words) in tsv.lines().filter_map(|line| line.split_once('\t')) {
        let name = words.split('|').next().unwrap_or_default().to_owned();
        expected.insert(emoji.replace('\u{FE0F}', ""), (name, fold_by_iterators(words)));
    }
    assert_eq!(expected.len(), 3);
    for (key, (name, folded)) in &expected {
        let found = lookup(&table, Locale::Spanish, key).expect("entry");
        assert_eq!(&found.name, name);
        assert_eq!(&found.folded, folded);
    }
}

/// The lowercase letter of a Latin-1 character, as the library states it.
fn latin1_lowercase(c: char) -> char {
    let n = c as u32;
    if c.is_ascii_uppercase() || ((0xC0..=0xDE).contains(&n) && n != 0xD7) {
        char::from_u32(n + 32).unwrap()
    } else {
        c
    }
}

#[test]
fn stated_lowercase_facts_hold_for_every_char() {
    for n in 0..=0x10FFFFu32 {
        let Some(c) = char::from_u32(n) else { continue };
        let lower: Vec<char> = c.to_lowercase().collect();
        if n < 256 {
            assert_eq!(lower, vec![latin1_lowercase(c)], "{c:?}");
        }
        assert_eq!(lower.contains(&'|'), c == '|', "{c:?}");
        for l in lower {
            assert_eq!(l.to_lowercase().collect::<Vec<char>>(), vec![l], "{c:?}");
            let plain = strip_accent(l);
            assert_eq!(plain.to_lowercase().collect::<Vec<char>>(), vec![plain], "{c:?}");
        }
    }
}

/// The accent removal of `fold`.
fn strip_accent(c: char) -> char {
    fold_by_iterators(&c.to_string()).chars().next().unwrap_or(c)
}

#[test]
fn stated_alphanumeric_facts_hold_for_latin1() {
    for n in 0..256u32 {
        let c = char::from_u32(n).unwrap();
        let latin1 = c.is_ascii_alphanumeric()
            || [0xAA, 0xB2, 0xB3, 0xB5, 0xB9, 0xBA].contains(&n)
            || (0xBC..=0xBE).contains(&n)
            || ((0xC0..=0xFF).contains(&n) && n != 0xD7 && n != 0xF7);
        assert_eq!(c.is_alphanumeric(), latin1, "{c:?}");
    }
}

#[test]
fn folding_twice_changes_nothing_more() {
    for text in SAMPLES {
        assert_eq!(fold(&fold(text)), fold(text), "{text:?}");
    }
    assert_eq!(fold(&fold("İSTANBUL ΣΑΣ ǅ")), fold("İSTANBUL ΣΑΣ ǅ"));
}

#[test]
fn folding_latin1_twice_changes_nothing_more() {
    for text in ["Corazón ROJO", "ÀÉÎÕÜ ñÑ çÇ ÆØÞß ×÷", "ascii ONLY 123 |_|"] {
        assert_eq!(fold(&fold(text)), fold(text), "{text:?}");
    }
    assert_eq!(fold("ABC xyz_|Q"), "abc xyz_|q");
}

#[test]
fn folding_keeps_the_bars() {
    for text in SAMPLES {
        let pieces: Vec<String> = text.split('|').map(fold).collect();
        let folded = fold(text);
        let folded_pieces: Vec<&str> = folded.split('|').collect();
        assert_eq!(folded_pieces, pieces, "{text:?}");
    }
}

#[test]
fn looked_up_words_begin_with_their_folded_name() {
    let table = table();
    for emoji in ["❤\u{FE0F}", "🇨🇱", "😂", "🦀"] {
        let w = lookup(&table, Locale::Spanish, emoji).expect("entry");
        assert!(!w.name.contains('|'));
        assert_eq!(w.terms()[0], fold(&w.name));
    }
}
