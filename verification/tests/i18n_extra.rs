use zapfast::i18n::{gettext, spanish, Locale};
use zapfast::i18n_extra::{
    locale, set_locale, summary, summary_in, summary_label_list, table_text_list, tr,
};

#[test]
fn summaries_translate_the_label_and_keep_the_sender_text() {
    let es = Locale::Spanish;
    assert_eq!(summary_in(es, "Photo"), "Foto");
    assert_eq!(summary_in(es, "Photo: Photo"), "Foto: Photo");
    assert_eq!(
        summary_in(es, "Document: informe.pdf"),
        "Documento: informe.pdf"
    );
    assert_eq!(
        summary_in(es, "Voice message (0:12)"),
        "Mensaje de voz (0:12)"
    );
    assert_eq!(summary_in(es, "hola: qué tal"), "hola: qué tal");
    assert_eq!(summary_in(Locale::English, "Photo"), "Photo");
}

#[test]
fn every_spanish_message_is_translated() {
    let messages: Vec<&str> = table_text_list().into_iter().chain(summary_label_list()).collect();
    assert_eq!(messages.len(), 57);
    let empty = messages
        .iter()
        .filter(|m| spanish(m).map_or(true, |t| t.is_empty()))
        .count();
    assert_eq!(empty, 0, "untranslated entries in the Spanish catalog");
}

#[test]
fn the_stored_locale_reads_back() {
    assert_eq!(locale(set_locale(Locale::English)), Locale::English);
    assert_eq!(locale(set_locale(Locale::Spanish)), Locale::Spanish);
    assert_eq!(locale(7), Locale::Spanish);
}

#[test]
fn tr_translates_table_texts_and_keeps_unknown_ones() {
    let es = set_locale(Locale::Spanish);
    let en = set_locale(Locale::English);
    assert_eq!(tr(es, "Settings"), "Ajustes");
    assert_eq!(tr(es, "Flags"), "Banderas");
    assert_eq!(tr(en, "Settings"), "Settings");
    assert_eq!(tr(es, "Something new"), "Something new");
    // A summary label is not a table text.
    assert_eq!(tr(es, "Photo"), "Photo");
}

#[test]
fn summary_labels_in_parentheses_need_the_closing_one() {
    let es = set_locale(Locale::Spanish);
    assert_eq!(summary(es, "Location (Plaza)"), "Ubicación (Plaza)");
    assert_eq!(summary(es, "Location (Plaza"), "Location (Plaza");
    assert_eq!(summary(es, "Poll: ¿Dónde?"), "Encuesta: ¿Dónde?");
    assert_eq!(summary(es, "Unknown: x"), "Unknown: x");
    assert_eq!(summary(set_locale(Locale::English), "Poll: x"), "Poll: x");
}

#[test]
fn gettext_falls_back_to_the_message() {
    assert_eq!(gettext(Locale::Spanish, "Voice message"), "Mensaje de voz");
    assert_eq!(gettext(Locale::Spanish, "Not in the catalog"), "Not in the catalog");
    assert_eq!(gettext(Locale::English, "Voice message"), "Voice message");
    assert_eq!(spanish("Not in the catalog"), None);
}
