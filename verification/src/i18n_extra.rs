//! Translation of interface texts that are kept in English: constants and
//! tables where a `gettext` call cannot go, and message summaries stored in
//! English. The interface locale itself is kept by the app, as the number
//! that `set_locale` gives and `locale` reads back.

use vstd::prelude::*;
use crate::i18n::{all_locales, gettext, locales, translation, Locale};
use crate::text::{chars_of, split_once, split_once_chars, str_eq, string_of};

verus! {

broadcast use vstd::string::group_string_axioms;

/// The contents of each string slice.
pub open spec fn str_views(v: Seq<&str>) -> Seq<Seq<char>> {
    v.map_values(|s: &str| s@)
}

/// English texts kept in constants and tables that `tr` translates.
pub open spec fn table_texts() -> Seq<Seq<char>> {
    seq![
        "Frequently Used"@,
        "Recent"@,
        "Nothing matches"@,
        "Smileys & Emotion"@,
        "People & Body"@,
        "Animals & Nature"@,
        "Food & Drink"@,
        "Travel & Places"@,
        "Activities"@,
        "Objects"@,
        "Symbols"@,
        "Flags"@,
        "Emoji"@,
        "Stickers"@,
        "Search chats"@,
        "Search the open chat (Enter for the next match)"@,
        "Focus the message input"@,
        "Previous / next chat"@,
        "Edit the previous message (when the input is empty)"@,
        "Send (Shift+Enter for a new line)"@,
        "Dismiss the current action, return from search, or close the chat"@,
        "New chat or message yourself"@,
        "Paste text, or stage a picture from the clipboard"@,
        "Show or hide the chat list"@,
        "Jump to the newest message"@,
        "Settings"@,
        "Zoom in / out"@,
        "Reset zoom"@,
        "Keyboard shortcuts (? when not typing)"@,
        "Close the window (ZapFast remains in the tray)"@,
        "Quit"@,
        "Enter a question of up to 255 characters."@,
        "Add 2–12 answers, each with 1–100 characters."@,
        "Each answer must be different."@,
        "Not sent"@,
        "This message could not be sent, and ZapFast will not retry it. Send it again yourself."@,
        "Enter the whole number, starting with the country code"@,
        "No longer available on WhatsApp's servers"@,
        "This attachment is larger than the 64 MiB download limit"@
    ]
}

/// `table_texts` at run time.
pub fn table_text_list() -> (res: Vec<&'static str>)
    ensures
        str_views(res@) == table_texts(),
{
    let res = vec![
        "Frequently Used",
        "Recent",
        "Nothing matches",
        "Smileys & Emotion",
        "People & Body",
        "Animals & Nature",
        "Food & Drink",
        "Travel & Places",
        "Activities",
        "Objects",
        "Symbols",
        "Flags",
        "Emoji",
        "Stickers",
        "Search chats",
        "Search the open chat (Enter for the next match)",
        "Focus the message input",
        "Previous / next chat",
        "Edit the previous message (when the input is empty)",
        "Send (Shift+Enter for a new line)",
        "Dismiss the current action, return from search, or close the chat",
        "New chat or message yourself",
        "Paste text, or stage a picture from the clipboard",
        "Show or hide the chat list",
        "Jump to the newest message",
        "Settings",
        "Zoom in / out",
        "Reset zoom",
        "Keyboard shortcuts (? when not typing)",
        "Close the window (ZapFast remains in the tray)",
        "Quit",
        "Enter a question of up to 255 characters.",
        "Add 2–12 answers, each with 1–100 characters.",
        "Each answer must be different.",
        "Not sent",
        "This message could not be sent, and ZapFast will not retry it. Send it again yourself.",
        "Enter the whole number, starting with the country code",
        "No longer available on WhatsApp's servers",
        "This attachment is larger than the 64 MiB download limit"
    ];
    assert(str_views(res@) =~= table_texts());
    res
}

/// Labels that message summaries are written with in English, alone or as
/// `Label: detail` and `Label (detail)`.
pub open spec fn summary_labels() -> Seq<Seq<char>> {
    seq![
        "Photo"@,
        "GIF"@,
        "Video"@,
        "Video message"@,
        "Voice message"@,
        "Audio"@,
        "Document"@,
        "Sticker"@,
        "Sticker pack"@,
        "Location"@,
        "Live location"@,
        "Live location ended"@,
        "Contact"@,
        "Poll"@,
        "This message was deleted"@,
        "Unsupported message"@,
        "View once message"@,
        "Message on your phone"@
    ]
}

/// `summary_labels` at run time.
pub fn summary_label_list() -> (res: Vec<&'static str>)
    ensures
        str_views(res@) == summary_labels(),
{
    let res = vec![
        "Photo",
        "GIF",
        "Video",
        "Video message",
        "Voice message",
        "Audio",
        "Document",
        "Sticker",
        "Sticker pack",
        "Location",
        "Live location",
        "Live location ended",
        "Contact",
        "Poll",
        "This message was deleted",
        "Unsupported message",
        "View once message",
        "Message on your phone"
    ];
    assert(str_views(res@) =~= summary_labels());
    res
}

/// Whether `list` holds `s`.
fn holds(list: &[&str], s: &str) -> (res: bool)
    ensures
        res == str_views(list@).contains(s@),
{
    for i in 0..list.len()
        invariant
            forall|j: int| 0 <= j < i ==> #[trigger] str_views(list@)[j] != s@,
    {
        if str_eq(list[i], s) {
            assert(str_views(list@)[i as int] == s@);
            return true;
        }
    }
    false
}

/// The number under which `locale` is stored: its position in
/// `all_locales`, the first one that holds it.
pub open spec fn is_locale_number(locale: Locale, n: usize) -> bool {
    &&& n < all_locales().len()
    &&& all_locales()[n as int] == locale
    &&& forall|j: int| 0 <= j < n ==> all_locales()[j] != locale
}

/// The locale that the stored number `n` stands for; a number past the end
/// stands for the last locale.
pub open spec fn locale_for(n: usize) -> Locale {
    let last = all_locales().len() - 1;
    if n < last {
        all_locales()[n as int]
    } else {
        all_locales()[last]
    }
}

/// The number to store for the interface locale; the app stores it
/// whenever the locale changes.
pub fn set_locale(locale: Locale) -> (n: usize)
    ensures
        is_locale_number(locale, n),
{
    let all = locales();
    for i in 0..all.len()
        invariant
            all@ == all_locales(),
            forall|j: int| 0 <= j < i ==> all@[j] != locale,
    {
        if all[i] == locale {
            return i;
        }
    }
    assert(all@[locale_index(locale)] == locale);
    0
}

spec fn locale_index(locale: Locale) -> int {
    match locale {
        Locale::English => 0,
        Locale::Spanish => 1,
    }
}

/// The interface locale for the stored number `n`, for code that has no
/// `App` at hand.
pub fn locale(n: usize) -> (res: Locale)
    ensures
        res == locale_for(n),
{
    let all = locales();
    let last = all.len() - 1;
    if n < last {
        all[n]
    } else {
        all[last]
    }
}

/// Reading the locale back gives the locale that was set: for every
/// locale, the number `set_locale` stores for it stands for it again.
pub proof fn law_locale_round_trip(l: Locale, n: usize)
    requires
        is_locale_number(l, n),
    ensures
        locale_for(n) == l,
{
}

/// What `tr` shows for `english`: its translation when it is one of the
/// table texts, and the text unchanged otherwise.
pub open spec fn tr_text(locale: Locale, english: Seq<char>) -> Seq<char> {
    if table_texts().contains(english) {
        translation(locale, english)
    } else {
        english
    }
}

/// Translates English text that is kept in constants and tables, where a
/// `gettext` call cannot go, into the locale stored as `n`. Unknown text
/// comes back unchanged.
pub fn tr(n: usize, english: &str) -> (res: String)
    ensures
        res@ == tr_text(locale_for(n), english@),
{
    let locale = locale(n);
    let list = table_text_list();
    if holds(&list, english) {
        gettext(locale, english)
    } else {
        english.to_owned()
    }
}

/// The translated label, when `english` is one of the summary labels.
pub open spec fn label_text(locale: Locale, english: Seq<char>) -> Option<Seq<char>> {
    if summary_labels().contains(english) {
        Some(translation(locale, english))
    } else {
        None
    }
}

/// The translated label for a summary label.
pub fn summary_label(locale: Locale, english: &str) -> (res: Option<String>)
    ensures
        match res {
            Some(t) => label_text(locale, english@) == Some(t@),
            None => label_text(locale, english@) is None,
        },
{
    let list = summary_label_list();
    if holds(&list, english) {
        Some(gettext(locale, english))
    } else {
        None
    }
}

/// `text` with the label before the first `sep` translated, when that text
/// is one of the summary labels.
pub open spec fn relabeled(locale: Locale, text: Seq<char>, sep: Seq<char>) -> Option<Seq<char>> {
    match split_once(text, sep) {
        Some((label, rest)) => match label_text(locale, label) {
            Some(t) => Some(t + sep + rest),
            None => None,
        },
        None => None,
    }
}

/// A `Label: detail` summary with its label translated.
pub open spec fn colon_form(locale: Locale, text: Seq<char>) -> Option<Seq<char>> {
    relabeled(locale, text, ": "@)
}

/// A `Label (detail)` summary with its label translated.
pub open spec fn paren_form(locale: Locale, text: Seq<char>) -> Option<Seq<char>> {
    if text.len() > 0 && text.last() == ')' {
        relabeled(locale, text, " ("@)
    } else {
        None
    }
}

/// A stored English message summary in `locale`: a whole label, or the
/// label before `: ` or ` (`, translated; the rest is the sender's own text
/// and stays as it is.
pub open spec fn summary_text(locale: Locale, text: Seq<char>) -> Seq<char> {
    if locale == Locale::English {
        text
    } else {
        match label_text(locale, text) {
            Some(t) => t,
            None => match colon_form(locale, text) {
                Some(s) => s,
                None => match paren_form(locale, text) {
                    Some(s) => s,
                    None => text,
                },
            },
        }
    }
}

/// A summary with the label found around `sep` translated, if it is one.
fn relabel(locale: Locale, text: &[char], sep: &str) -> (res: Option<String>)
    ensures
        match res {
            Some(s) => relabeled(locale, text@, sep@) == Some(s@),
            None => relabeled(locale, text@, sep@) is None,
        },
{
    let pattern = chars_of(sep);
    match split_once_chars(text, &pattern) {
        Some((label, rest)) => {
            let label = string_of(&label);
            match summary_label(locale, label.as_str()) {
                Some(local) => {
                    let mut out = local;
                    out.append(sep);
                    let rest = string_of(&rest);
                    out.append(rest.as_str());
                    Some(out)
                },
                None => None,
            }
        },
        None => None,
    }
}

/// Shows a stored English message summary in `locale`. Only the label is
/// translated; what follows it is the sender's own text.
pub fn summary_in(locale: Locale, text: &str) -> (res: String)
    ensures
        res@ == summary_text(locale, text@),
{
    if locale == Locale::English {
        return text.to_owned();
    }
    if let Some(label) = summary_label(locale, text) {
        return label;
    }
    let chars = chars_of(text);
    if let Some(s) = relabel(locale, &chars, ": ") {
        return s;
    }
    let n = chars.len();
    if n > 0 && chars[n - 1] == ')' {
        if let Some(s) = relabel(locale, &chars, " (") {
            return s;
        }
    }
    text.to_owned()
}

/// Shows a stored English message summary in the locale stored as `n`.
pub fn summary(n: usize, text: &str) -> (res: String)
    ensures
        res@ == summary_text(locale_for(n), text@),
{
    summary_in(locale(n), text)
}

/// Unknown text comes back unchanged from `tr`, in every locale.
pub proof fn law_unknown_text_is_unchanged(locale: Locale, english: Seq<char>)
    requires
        !table_texts().contains(english),
    ensures
        tr_text(locale, english) == english,
{
}

/// In English nothing is translated: texts and summaries come back as they
/// are.
pub proof fn law_english_is_unchanged(text: Seq<char>)
    ensures
        tr_text(Locale::English, text) == text,
        summary_text(Locale::English, text) == text,
{
}

/// Only the label of a `Label: detail` summary is translated; the detail,
/// the sender's own text, is kept as it is.
pub proof fn law_summary_keeps_the_sender_text(locale: Locale, text: Seq<char>, label: Seq<char>, rest: Seq<char>)
    requires
        locale != Locale::English,
        !summary_labels().contains(text),
        summary_labels().contains(label),
        split_once(text, ": "@) == Some((label, rest)),
    ensures
        summary_text(locale, text) == translation(locale, label) + ": "@ + rest,
{
}

/// `tr` translates each of the texts of the emoji picker, the keyboard
/// shortcuts, poll validation, views and download failures: for each of
/// them, in every locale, it gives what `gettext` gives.
pub proof fn law_tr_translates_every_table_text(locale: Locale, i: int)
    requires
        0 <= i < 39,
    ensures
        ({
            let texts = seq!["Frequently Used"@, "Recent"@, "Nothing matches"@, "Smileys & Emotion"@, "People & Body"@, "Animals & Nature"@, "Food & Drink"@, "Travel & Places"@, "Activities"@, "Objects"@, "Symbols"@, "Flags"@, "Emoji"@, "Stickers"@, "Search chats"@, "Search the open chat (Enter for the next match)"@, "Focus the message input"@, "Previous / next chat"@, "Edit the previous message (when the input is empty)"@, "Send (Shift+Enter for a new line)"@, "Dismiss the current action, return from search, or close the chat"@, "New chat or message yourself"@, "Paste text, or stage a picture from the clipboard"@, "Show or hide the chat list"@, "Jump to the newest message"@, "Settings"@, "Zoom in / out"@, "Reset zoom"@, "Keyboard shortcuts (? when not typing)"@, "Close the window (ZapFast remains in the tray)"@, "Quit"@, "Enter a question of up to 255 characters."@, "Add 2–12 answers, each with 1–100 characters."@, "Each answer must be different."@, "Not sent"@, "This message could not be sent, and ZapFast will not retry it. Send it again yourself."@, "Enter the whole number, starting with the country code"@, "No longer available on WhatsApp's servers"@, "This attachment is larger than the 64 MiB download limit"@];
            tr_text(locale, texts[i]) == translation(locale, texts[i])
        }),
{
    let texts = seq!["Frequently Used"@, "Recent"@, "Nothing matches"@, "Smileys & Emotion"@, "People & Body"@, "Animals & Nature"@, "Food & Drink"@, "Travel & Places"@, "Activities"@, "Objects"@, "Symbols"@, "Flags"@, "Emoji"@, "Stickers"@, "Search chats"@, "Search the open chat (Enter for the next match)"@, "Focus the message input"@, "Previous / next chat"@, "Edit the previous message (when the input is empty)"@, "Send (Shift+Enter for a new line)"@, "Dismiss the current action, return from search, or close the chat"@, "New chat or message yourself"@, "Paste text, or stage a picture from the clipboard"@, "Show or hide the chat list"@, "Jump to the newest message"@, "Settings"@, "Zoom in / out"@, "Reset zoom"@, "Keyboard shortcuts (? when not typing)"@, "Close the window (ZapFast remains in the tray)"@, "Quit"@, "Enter a question of up to 255 characters."@, "Add 2–12 answers, each with 1–100 characters."@, "Each answer must be different."@, "Not sent"@, "This message could not be sent, and ZapFast will not retry it. Send it again yourself."@, "Enter the whole number, starting with the country code"@, "No longer available on WhatsApp's servers"@, "This attachment is larger than the 64 MiB download limit"@];
    assert(texts =~= table_texts());
    assert(table_texts()[i] == texts[i]);
}

/// Each label that message summaries are written with, alone, is shown as
/// its translation: in Spanish, "Photo" as the catalog's Spanish for it,
/// and so on for all of them.
pub proof fn law_summary_translates_every_label(locale: Locale, i: int)
    requires
        0 <= i < 18,
        locale != Locale::English,
    ensures
        ({
            let labels = seq!["Photo"@, "GIF"@, "Video"@, "Video message"@, "Voice message"@, "Audio"@, "Document"@, "Sticker"@, "Sticker pack"@, "Location"@, "Live location"@, "Live location ended"@, "Contact"@, "Poll"@, "This message was deleted"@, "Unsupported message"@, "View once message"@, "Message on your phone"@];
            summary_text(locale, labels[i]) == translation(locale, labels[i])
        }),
{
    let labels = seq!["Photo"@, "GIF"@, "Video"@, "Video message"@, "Voice message"@, "Audio"@, "Document"@, "Sticker"@, "Sticker pack"@, "Location"@, "Live location"@, "Live location ended"@, "Contact"@, "Poll"@, "This message was deleted"@, "Unsupported message"@, "View once message"@, "Message on your phone"@];
    assert(labels =~= summary_labels());
    assert(summary_labels()[i] == labels[i]);
}

} // verus!
