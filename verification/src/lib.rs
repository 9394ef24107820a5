//! Chat index, emoji words and interface-language helpers of ZapFast,
//! with their contracts.

pub mod text;

pub mod json;
pub mod chat_index;
pub mod i18n;
pub mod emoji_words;
pub mod i18n_extra;
pub mod desktop_background;
