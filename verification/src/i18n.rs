//! Interface languages, and the Spanish message catalog that the
//! interface texts of this library are translated with.

use vstd::prelude::*;
use crate::text::str_eq;
use crate::i18n_extra::{str_views, summary_label_list, summary_labels, table_text_list, table_texts};

verus! {

broadcast use vstd::string::group_string_axioms;

/// An interface language.
#[derive(PartialEq, Eq, Structural, Clone, Copy, Debug)]
pub enum Locale {
    English,
    Spanish,
}

/// Every interface language, in the order in which they are numbered.
pub open spec fn all_locales() -> Seq<Locale> {
    seq![Locale::English, Locale::Spanish]
}

/// `all_locales` at run time.
pub fn locales() -> (res: Vec<Locale>)
    ensures
        res@ == all_locales(),
{
    let res = vec![Locale::English, Locale::Spanish];
    assert(res@ =~= all_locales());
    res
}

/// The English messages of the catalog: the table texts, then the summary
/// labels.
pub open spec fn catalog_english() -> Seq<Seq<char>> {
    table_texts() + summary_labels()
}

/// The Spanish translation of each message of `catalog_english`, in the
/// same order.
pub open spec fn catalog_spanish() -> Seq<Seq<char>> {
    seq![
        "Usados con frecuencia"@,
        "Recientes"@,
        "Nada coincide"@,
        "Caras y emociones"@,
        "Personas y cuerpo"@,
        "Animales y naturaleza"@,
        "Comida y bebida"@,
        "Viajes y lugares"@,
        "Actividades"@,
        "Objetos"@,
        "Símbolos"@,
        "Banderas"@,
        "Emoji"@,
        "Stickers"@,
        "Buscar chats"@,
        "Buscar en el chat abierto (Enter para la siguiente coincidencia)"@,
        "Ir al campo de mensaje"@,
        "Chat anterior / siguiente"@,
        "Editar el mensaje anterior (con el campo vacío)"@,
        "Enviar (Mayús+Enter para una línea nueva)"@,
        "Descartar la acción actual, volver de la búsqueda o cerrar el chat"@,
        "Chat nuevo o mensaje a ti mismo"@,
        "Pegar texto o preparar una imagen del portapapeles"@,
        "Mostrar u ocultar la lista de chats"@,
        "Ir al mensaje más reciente"@,
        "Ajustes"@,
        "Acercar / alejar"@,
        "Restablecer el zoom"@,
        "Atajos de teclado (? cuando no estás escribiendo)"@,
        "Cerrar la ventana (ZapFast sigue en la bandeja)"@,
        "Salir"@,
        "Escribe una pregunta de hasta 255 caracteres."@,
        "Agrega de 2 a 12 respuestas, cada una de 1 a 100 caracteres."@,
        "Cada respuesta debe ser distinta."@,
        "No enviado"@,
        "Este mensaje no se pudo enviar y ZapFast no volverá a intentarlo. Envíalo de nuevo tú."@,
        "Escribe el número completo, empezando por el código de país"@,
        "Ya no está disponible en los servidores de WhatsApp"@,
        "Este adjunto supera el límite de descarga de 64 MiB"@,
        "Foto"@,
        "GIF"@,
        "Video"@,
        "Mensaje de video"@,
        "Mensaje de voz"@,
        "Audio"@,
        "Documento"@,
        "Sticker"@,
        "Paquete de stickers"@,
        "Ubicación"@,
        "Ubicación en tiempo real"@,
        "Ubicación en tiempo real finalizada"@,
        "Contacto"@,
        "Encuesta"@,
        "Se eliminó este mensaje"@,
        "Mensaje no compatible"@,
        "Mensaje de visualización única"@,
        "Mensaje en tu teléfono"@
    ]
}

fn english_list() -> (res: Vec<&'static str>)
    ensures
        str_views(res@) == catalog_english(),
{
    let mut res = table_text_list();
    let mut labels = summary_label_list();
    res.append(&mut labels);
    assert(str_views(res@) =~= catalog_english());
    res
}

fn spanish_list() -> (res: Vec<&'static str>)
    ensures
        str_views(res@) == catalog_spanish(),
{
    let res = vec![
        "Usados con frecuencia",
        "Recientes",
        "Nada coincide",
        "Caras y emociones",
        "Personas y cuerpo",
        "Animales y naturaleza",
        "Comida y bebida",
        "Viajes y lugares",
        "Actividades",
        "Objetos",
        "Símbolos",
        "Banderas",
        "Emoji",
        "Stickers",
        "Buscar chats",
        "Buscar en el chat abierto (Enter para la siguiente coincidencia)",
        "Ir al campo de mensaje",
        "Chat anterior / siguiente",
        "Editar el mensaje anterior (con el campo vacío)",
        "Enviar (Mayús+Enter para una línea nueva)",
        "Descartar la acción actual, volver de la búsqueda o cerrar el chat",
        "Chat nuevo o mensaje a ti mismo",
        "Pegar texto o preparar una imagen del portapapeles",
        "Mostrar u ocultar la lista de chats",
        "Ir al mensaje más reciente",
        "Ajustes",
        "Acercar / alejar",
        "Restablecer el zoom",
        "Atajos de teclado (? cuando no estás escribiendo)",
        "Cerrar la ventana (ZapFast sigue en la bandeja)",
        "Salir",
        "Escribe una pregunta de hasta 255 caracteres.",
        "Agrega de 2 a 12 respuestas, cada una de 1 a 100 caracteres.",
        "Cada respuesta debe ser distinta.",
        "No enviado",
        "Este mensaje no se pudo enviar y ZapFast no volverá a intentarlo. Envíalo de nuevo tú.",
        "Escribe el número completo, empezando por el código de país",
        "Ya no está disponible en los servidores de WhatsApp",
        "Este adjunto supera el límite de descarga de 64 MiB",
        "Foto",
        "GIF",
        "Video",
        "Mensaje de video",
        "Mensaje de voz",
        "Audio",
        "Documento",
        "Sticker",
        "Paquete de stickers",
        "Ubicación",
        "Ubicación en tiempo real",
        "Ubicación en tiempo real finalizada",
        "Contacto",
        "Encuesta",
        "Se eliminó este mensaje",
        "Mensaje no compatible",
        "Mensaje de visualización única",
        "Mensaje en tu teléfono"
    ];
    assert(str_views(res@) =~= catalog_spanish());
    res
}

/// Message `i` of the catalog is the first one that is `msgid`.
pub open spec fn is_first_entry(msgid: Seq<char>, i: int) -> bool {
    &&& 0 <= i < catalog_english().len()
    &&& catalog_english()[i] == msgid
    &&& forall|j: int| 0 <= j < i ==> #[trigger] catalog_english()[j] != msgid
}

/// The Spanish translation of `msgid`, from its first entry in the catalog.
pub open spec fn spanish_translation(msgid: Seq<char>) -> Option<Seq<char>> {
    if exists|i: int| is_first_entry(msgid, i) {
        Some(catalog_spanish()[choose|i: int| is_first_entry(msgid, i)])
    } else {
        None
    }
}

/// What `gettext` shows for `msgid`: the message itself in English, and in
/// Spanish its translation, or the message itself when it has none.
pub open spec fn translation(locale: Locale, msgid: Seq<char>) -> Seq<char> {
    match locale {
        Locale::English => msgid,
        Locale::Spanish => match spanish_translation(msgid) {
            Some(t) => t,
            None => msgid,
        },
    }
}

proof fn lemma_first_entry(msgid: Seq<char>, i: int)
    requires
        0 <= i < catalog_english().len(),
        catalog_english()[i] == msgid,
    ensures
        exists|k: int| is_first_entry(msgid, k),
    decreases i,
{
    if exists|j: int| 0 <= j < i && #[trigger] catalog_english()[j] == msgid {
        let j = choose|j: int| 0 <= j < i && #[trigger] catalog_english()[j] == msgid;
        lemma_first_entry(msgid, j);
    } else {
        assert(is_first_entry(msgid, i));
    }
}

/// The Spanish catalog is complete: every table text and every summary
/// label has a Spanish translation.
pub proof fn law_spanish_catalog_is_complete(msgid: Seq<char>)
    requires
        table_texts().contains(msgid) || summary_labels().contains(msgid),
    ensures
        spanish_translation(msgid) is Some,
{
    if table_texts().contains(msgid) {
        let i = choose|i: int| 0 <= i < table_texts().len() && table_texts()[i] == msgid;
        assert(catalog_english()[i] == msgid);
        lemma_first_entry(msgid, i);
    } else {
        let i = choose|i: int| 0 <= i < summary_labels().len() && summary_labels()[i] == msgid;
        assert(catalog_english()[table_texts().len() + i] == msgid);
        lemma_first_entry(msgid, table_texts().len() + i);
    }
}

/// The Spanish translation of the English message `msgid`, if the catalog
/// has one.
pub fn spanish(msgid: &str) -> (res: Option<String>)
    ensures
        match res {
            Some(t) => spanish_translation(msgid@) == Some(t@),
            None => spanish_translation(msgid@) is None,
        },
{
    let english = english_list();
    let spanish = spanish_list();
    assert(catalog_spanish().len() == catalog_english().len());
    for i in 0..english.len()
        invariant
            str_views(english@) == catalog_english(),
            str_views(spanish@) == catalog_spanish(),
            catalog_spanish().len() == catalog_english().len(),
            forall|j: int| 0 <= j < i ==> #[trigger] catalog_english()[j] != msgid@,
    {
        assert(str_views(english@)[i as int] == english@[i as int]@);
        if str_eq(english[i], msgid) {
            proof {
                assert(is_first_entry(msgid@, i as int));
                let k = choose|k: int| is_first_entry(msgid@, k);
                if k < i {
                    assert(catalog_english()[k] != msgid@);
                } else if k > i {
                    assert(catalog_english()[i as int] == msgid@);
                }
            }
            assert(str_views(spanish@)[i as int] == spanish@[i as int]@);
            return Some(spanish[i].to_owned());
        }
    }
    None
}

/// The interface text for the English message `msgid` in `locale`.
pub fn gettext(locale: Locale, msgid: &str) -> (res: String)
    ensures
        res@ == translation(locale, msgid@),
{
    match locale {
        Locale::English => msgid.to_owned(),
        Locale::Spanish => match spanish(msgid) {
            Some(t) => t,
            None => msgid.to_owned(),
        },
    }
}

} // verus!
