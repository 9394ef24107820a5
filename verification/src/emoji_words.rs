//! Localized emoji names and keywords from Unicode CLDR, for picker search
//! and `:shortcode` completion in languages other than English.

use vstd::prelude::*;
use crate::i18n::Locale;
use crate::text::{
    marks_of,
    any_equal, any_infix, any_prefixed, chars_of, has_infix, join, lemma_split_marked_nonempty,
    pieces, remove_char, same_chars, split_at_marks, split_char, split_marked, split_on,
    split_once, split_once_chars, string_of, strings, strings_of, without,
};

verus! {

broadcast use vstd::string::group_string_axioms;

/// What `char::to_lowercase` yields for `c`: its lowercase mapping from the
/// Unicode character database, one or more characters.
pub uninterp spec fn lowercase(c: char) -> Seq<char>;

/// The lowercase letter of a Latin-1 character (U+0000 to U+00FF): the
/// uppercase letters `A`-`Z` and U+00C0-U+00DE, but for the multiplication
/// sign U+00D7, map to the letter 0x20 above; every other one to itself.
pub open spec fn latin1_lowercase(c: char) -> char {
    if ('A' <= c <= 'Z') || ('\u{C0}' <= c <= '\u{DE}' && c != '\u{D7}') {
        ((c as int) + 32) as char
    } else {
        c
    }
}

/// The lowercase mapping of `c`.
///
/// Calls `char::to_lowercase` and collects the characters it yields. Its
/// documentation gives the mapping of the Unicode Character Database; the
/// contract names that sequence `lowercase` and states three facts of that
/// database: within Latin-1 a character maps to `latin1_lowercase` of it
/// alone; no character but `|` itself has `|` in its mapping; and every
/// character of a mapping is its own lowercase, as is that character with
/// its accent removed (a plain lowercase letter). Nothing more of the
/// Unicode tables is stated.
#[verifier::external_body]
fn to_lowercase(c: char) -> (res: Vec<char>)
    ensures
        res@ == lowercase(c),
        (c as int) < 256 ==> res@ == seq![latin1_lowercase(c)],
        res@.contains('|') <==> c == '|',
        forall|i: int|
            0 <= i < res@.len() ==> lowercase(#[trigger] res@[i]) == seq![res@[i]] && lowercase(
                strip_accent(res@[i]),
            ) == seq![strip_accent(res@[i])],
{
    c.to_lowercase().collect()
}

/// The Latin letter without its accent, for the accented lowercase letters
/// of Spanish and its neighbours; any other character unchanged.
pub open spec fn strip_accent(c: char) -> char {
    if c == 'á' || c == 'à' || c == 'â' || c == 'ä' || c == 'ã' {
        'a'
    } else if c == 'é' || c == 'è' || c == 'ê' || c == 'ë' {
        'e'
    } else if c == 'í' || c == 'ì' || c == 'î' || c == 'ï' {
        'i'
    } else if c == 'ó' || c == 'ò' || c == 'ô' || c == 'ö' || c == 'õ' {
        'o'
    } else if c == 'ú' || c == 'ù' || c == 'û' || c == 'ü' {
        'u'
    } else if c == 'ñ' {
        'n'
    } else if c == 'ç' {
        'c'
    } else {
        c
    }
}

/// `strip_accent` on each character of `s`.
pub open spec fn strip_accents(s: Seq<char>) -> Seq<char> {
    s.map_values(|c: char| strip_accent(c))
}

/// `text` lowercased, character by character, with Latin accents removed.
pub open spec fn folded(text: Seq<char>) -> Seq<char>
    decreases text.len(),
{
    if text.len() == 0 {
        Seq::empty()
    } else {
        folded(text.drop_last()) + strip_accents(lowercase(text.last()))
    }
}

fn unaccented(c: char) -> (res: char)
    ensures
        res == strip_accent(c),
{
    match c {
        'á' | 'à' | 'â' | 'ä' | 'ã' => 'a',
        'é' | 'è' | 'ê' | 'ë' => 'e',
        'í' | 'ì' | 'î' | 'ï' => 'i',
        'ó' | 'ò' | 'ô' | 'ö' | 'õ' => 'o',
        'ú' | 'ù' | 'û' | 'ü' => 'u',
        'ñ' => 'n',
        'ç' => 'c',
        c => c,
    }
}

/// The facts of the lowercase mapping of `c` that `to_lowercase` states.
pub open spec fn lowercase_facts(c: char) -> bool {
    &&& (c as int) < 256 ==> lowercase(c) == seq![latin1_lowercase(c)]
    &&& (lowercase(c).contains('|') <==> c == '|')
}

/// Every character of `s` is in Latin-1.
pub open spec fn is_latin1(s: Seq<char>) -> bool {
    forall|i: int| 0 <= i < s.len() ==> (#[trigger] s[i] as int) < 256
}

/// A Latin-1 character lowercased and without its accent.
pub open spec fn latin1_fold_char(c: char) -> char {
    strip_accent(latin1_lowercase(c))
}

/// `latin1_fold_char` on each character of `s`.
pub open spec fn latin1_folded(s: Seq<char>) -> Seq<char> {
    s.map_values(|c: char| latin1_fold_char(c))
}

/// `folded` on each piece.
pub open spec fn folds(parts: Seq<Seq<char>>) -> Seq<Seq<char>> {
    parts.map_values(|p: Seq<char>| folded(p))
}

/// Folding goes character by character: the folded concatenation is the
/// concatenation of the folded parts.
pub proof fn law_fold_concat(a: Seq<char>, b: Seq<char>)
    ensures
        folded(a + b) == folded(a) + folded(b),
    decreases b.len(),
{
    if b.len() == 0 {
        assert(a + b =~= a);
        assert(folded(a) + folded(b) =~= folded(a));
    } else {
        law_fold_concat(a, b.drop_last());
        assert((a + b).drop_last() =~= a + b.drop_last());
        assert((a + b).last() == b.last());
        assert(folded(a + b) =~= folded(a) + folded(b));
    }
}

proof fn lemma_folded_latin1(s: Seq<char>)
    requires
        forall|j: int| 0 <= j < s.len() ==> lowercase_facts(#[trigger] s[j]),
        is_latin1(s),
    ensures
        folded(s) == latin1_folded(s),
    decreases s.len(),
{
    if s.len() > 0 {
        let t = s.drop_last();
        assert forall|j: int| 0 <= j < t.len() implies lowercase_facts(#[trigger] t[j]) by {
            assert(t[j] == s[j]);
        }
        lemma_folded_latin1(t);
        assert(lowercase_facts(s[s.len() - 1]));
        assert((s.last() as int) < 256);
        assert(folded(s) =~= latin1_folded(s));
    }
}

proof fn lemma_strip_keeps_bars(l: Seq<char>)
    ensures
        strip_accents(l).contains('|') <==> l.contains('|'),
{
    if l.contains('|') {
        let i = choose|i: int| 0 <= i < l.len() && l[i] == '|';
        assert(strip_accents(l)[i] == '|');
    }
    if strip_accents(l).contains('|') {
        let i = choose|i: int| 0 <= i < strip_accents(l).len() && strip_accents(l)[i] == '|';
        assert(l[i] == '|');
    }
}

/// Folding keeps the `|` separators where they are: the pieces of a folded
/// text are the folded pieces of the text.
proof fn lemma_fold_split(s: Seq<char>)
    requires
        forall|j: int| 0 <= j < s.len() ==> lowercase_facts(#[trigger] s[j]),
    ensures
        split_on(folded(s), '|') == folds(split_on(s, '|')),
    decreases s.len(),
{
    if s.len() == 0 {
        assert(split_on(folded(s), '|') =~= folds(split_on(s, '|')));
    } else {
        let t = s.drop_last();
        let c = s.last();
        assert forall|j: int| 0 <= j < t.len() implies lowercase_facts(#[trigger] t[j]) by {
            assert(t[j] == s[j]);
        }
        lemma_fold_split(t);
        assert(lowercase_facts(s[s.len() - 1]));
        let f = strip_accents(lowercase(c));
        lemma_strip_keeps_bars(lowercase(c));
        assert(marks_of(s, '|').drop_last() =~= marks_of(t, '|'));
        crate::text::lemma_split_marked_nonempty(t, crate::text::marks_of(t, '|'));
        crate::text::lemma_split_marked_nonempty(folded(t), crate::text::marks_of(folded(t), '|'));
        if c == '|' {
            assert(f =~= seq!['|']);
            assert(folded(t) + f =~= folded(t).push('|'));
            crate::text::lemma_split_push_separator(folded(t), '|');
            assert(folded(Seq::<char>::empty()) =~= Seq::<char>::empty());
            assert(split_on(folded(s), '|') =~= folds(split_on(s, '|')));
        } else {
            crate::text::lemma_split_append(folded(t), f, '|');
            let q = split_on(t, '|');
            assert(q.last().push(c).drop_last() =~= q.last());
            assert(folded(q.last().push(c)) == folded(q.last()) + f);
            assert(split_on(folded(s), '|') =~= folds(split_on(s, '|')));
        }
    }
}

/// Folding Latin-1 text twice folds it no further.
pub proof fn law_latin1_fold_idempotent(s: Seq<char>)
    requires
        is_latin1(s),
    ensures
        is_latin1(latin1_folded(s)),
        latin1_folded(latin1_folded(s)) == latin1_folded(s),
{
    assert(latin1_folded(latin1_folded(s)) =~= latin1_folded(s));
}

/// ASCII text folds to its ASCII lowercase.
pub proof fn law_ascii_fold(s: Seq<char>)
    requires
        forall|i: int| 0 <= i < s.len() ==> (#[trigger] s[i] as int) < 128,
    ensures
        latin1_folded(s) == s.map_values(|c: char| if 'A' <= c <= 'Z' { ((c as int) + 32) as char } else { c }),
{
    assert(latin1_folded(s) =~= s.map_values(|c: char| if 'A' <= c <= 'Z' { ((c as int) + 32) as char } else { c }));
}

/// A character that folding leaves as it is.
pub open spec fn fold_fixed(c: char) -> bool {
    lowercase(c) == seq![c] && strip_accent(c) == c
}

proof fn lemma_folded_fixed(t: Seq<char>)
    requires
        forall|i: int| 0 <= i < t.len() ==> fold_fixed(#[trigger] t[i]),
    ensures
        folded(t) == t,
    decreases t.len(),
{
    if t.len() > 0 {
        let u = t.drop_last();
        assert forall|i: int| 0 <= i < u.len() implies fold_fixed(#[trigger] u[i]) by {
            assert(u[i] == t[i]);
        }
        lemma_folded_fixed(u);
        assert(fold_fixed(t[t.len() - 1]));
        assert(strip_accents(seq![t.last()]) =~= seq![t.last()]);
        assert(folded(t) =~= t);
    }
}

/// `folded` on characters.
pub fn fold_chars(text: &[char]) -> (res: Vec<char>)
    ensures
        res@ == folded(text@),
        is_latin1(text@) ==> res@ == latin1_folded(text@),
        split_on(res@, '|') == folds(split_on(text@, '|')),
        folded(res@) == res@,
{
    let mut out: Vec<char> = Vec::new();
    for i in 0..text.len()
        invariant
            out@ == folded(text@.take(i as int)),
            forall|j: int| 0 <= j < i ==> lowercase_facts(#[trigger] text@[j]),
            forall|j: int| 0 <= j < out@.len() ==> fold_fixed(#[trigger] out@[j]),
    {
        assert(text@.take(i + 1).drop_last() == text@.take(i as int));
        let lower = to_lowercase(text[i]);
        assert(lowercase_facts(text@[i as int]));
        let ghost start = out@;
        for j in 0..lower.len()
            invariant
                out@ == start + strip_accents(lower@.take(j as int)),
                forall|k: int|
                    0 <= k < lower@.len() ==> lowercase(strip_accent(#[trigger] lower@[k])) == seq![
                        strip_accent(lower@[k]),
                    ],
                forall|k: int| 0 <= k < out@.len() ==> fold_fixed(#[trigger] out@[k]),
        {
            assert(lowercase(strip_accent(lower@[j as int])) == seq![strip_accent(lower@[j as int])]);
            out.push(unaccented(lower[j]));
            assert(strip_accents(lower@.take(j + 1)) =~= strip_accents(lower@.take(j as int)).push(
                strip_accent(lower@[j as int]),
            ));
        }
        assert(lower@.take(lower@.len() as int) == lower@);
    }
    assert(text@.take(text@.len() as int) == text@);
    proof {
        if is_latin1(text@) {
            lemma_folded_latin1(text@);
        }
        lemma_fold_split(text@);
        lemma_folded_fixed(out@);
    }
    out
}

/// Lowercases and strips Latin accents so search matches `corazon` to
/// `corazón` and `nino` to `niño`. Folding the result again changes nothing
/// more, and the `|` separators stay where they are.
pub fn fold(text: &str) -> (res: String)
    ensures
        res@ == folded(text@),
        is_latin1(text@) ==> res@ == latin1_folded(text@),
        split_on(res@, '|') == folds(split_on(text@, '|')),
        folded(res@) == res@,
{
    let chars = chars_of(text);
    let out = fold_chars(&chars);
    string_of(&out)
}

/// Localized names and keywords for one emoji.
pub struct EmojiWords {
    /// Display name, as CLDR spells it (`cara llorando de risa`).
    pub name: String,
    /// Folded name followed by folded keywords, `|`-separated.
    pub folded: String,
}

/// The search terms of a folded `name|keyword|...` list, name first.
pub open spec fn terms_of(folded: Seq<char>) -> Seq<Seq<char>> {
    split_on(folded, '|')
}

/// A character that separates the words of a name.
pub open spec fn word_separator(c: char) -> bool {
    c == ' ' || c == '-' || c == ':'
}

/// Marks the word separators of `s`.
pub open spec fn word_marks(s: Seq<char>) -> Seq<bool> {
    s.map_values(|c: char| word_separator(c))
}

/// The words of a name, split at spaces, hyphens and colons.
pub open spec fn words_of(name: Seq<char>) -> Seq<Seq<char>> {
    split_marked(name, word_marks(name))
}

/// How well `query` matches the folded terms: 2 when it is the name, 3 when
/// it begins a word of the name or is a keyword, 4 when it begins a keyword,
/// 5 when some term holds it, and no match otherwise.
pub open spec fn score(folded: Seq<char>, query: Seq<char>) -> Option<u8> {
    let terms = terms_of(folded);
    let name = terms[0];
    if name == query {
        Some(2u8)
    } else if (exists|i: int| 0 <= i < words_of(name).len() && query.is_prefix_of(#[trigger] words_of(name)[i]))
        || (exists|i: int| 1 <= i < terms.len() && #[trigger] terms[i] == query) {
        Some(3u8)
    } else if exists|i: int| 1 <= i < terms.len() && query.is_prefix_of(#[trigger] terms[i]) {
        Some(4u8)
    } else if exists|i: int| 0 <= i < terms.len() && has_infix(#[trigger] terms[i], query) {
        Some(5u8)
    } else {
        None
    }
}

/// What `char::is_alphanumeric` says of `c`: Unicode's Alphabetic or
/// Numeric property.
pub uninterp spec fn alphanumeric(c: char) -> bool;

/// The letters and digits of Latin-1 (U+0000 to U+00FF) in Unicode: the
/// ASCII letters and digits, the ordinal indicators U+00AA and U+00BA, the
/// micro sign U+00B5, the superscripts U+00B2, U+00B3 and U+00B9, the
/// fractions U+00BC-U+00BE, and the letters U+00C0-U+00FF but for the
/// multiplication and division signs U+00D7 and U+00F7.
pub open spec fn latin1_alphanumeric(c: char) -> bool {
    ||| ('0' <= c <= '9') || ('a' <= c <= 'z') || ('A' <= c <= 'Z')
    ||| c == '\u{AA}' || c == '\u{B2}' || c == '\u{B3}' || c == '\u{B5}' || c == '\u{B9}' || c == '\u{BA}'
    ||| ('\u{BC}' <= c <= '\u{BE}')
    ||| ('\u{C0}' <= c <= '\u{FF}' && c != '\u{D7}' && c != '\u{F7}')
}

/// Whether `c` is a letter or a digit in Unicode.
///
/// Calls `char::is_alphanumeric`, which is true of characters with the
/// Unicode Alphabetic property or a numeric general category (Nd, Nl, No).
/// The contract names its answer `alphanumeric` and states it for Latin-1,
/// where those properties give `latin1_alphanumeric`; nothing more of the
/// Unicode tables is stated.
#[verifier::external_body]
fn is_alphanumeric(c: char) -> (res: bool)
    ensures
        res == alphanumeric(c),
        (c as int) < 256 ==> res == latin1_alphanumeric(c),
{
    c.is_alphanumeric()
}

/// Marks the characters of `s` that are neither letters nor digits.
pub open spec fn slug_marks(s: Seq<char>) -> Seq<bool> {
    s.map_values(|c: char| !alphanumeric(c))
}

/// The pieces of `parts` that are not empty, in order.
pub open spec fn nonempty(parts: Seq<Seq<char>>) -> Seq<Seq<char>>
    decreases parts.len(),
{
    if parts.len() == 0 {
        Seq::empty()
    } else if parts.last().len() == 0 {
        nonempty(parts.drop_last())
    } else {
        nonempty(parts.drop_last()).push(parts.last())
    }
}

/// `:word_word:` from the runs of letters and digits of the name.
pub open spec fn shortcode_of(folded: Seq<char>) -> Seq<char> {
    let name = terms_of(folded)[0];
    ":"@ + join(nonempty(split_marked(name, slug_marks(name))), "_"@) + ":"@
}

/// Marks the characters of Latin-1 text that are neither letters nor
/// digits.
pub open spec fn latin1_slug_marks(s: Seq<char>) -> Seq<bool> {
    s.map_values(|c: char| !latin1_alphanumeric(c))
}

/// `shortcode_of` for a name in Latin-1, by `latin1_alphanumeric`.
pub open spec fn latin1_shortcode_of(folded_list: Seq<char>) -> Seq<char> {
    let name = terms_of(folded_list)[0];
    ":"@ + join(nonempty(split_marked(name, latin1_slug_marks(name))), "_"@) + ":"@
}

/// The words of a name.
fn words(name: &[char]) -> (res: Vec<Vec<char>>)
    ensures
        pieces(res@) == words_of(name@),
{
    let mut marks: Vec<bool> = Vec::new();
    for i in 0..name.len()
        invariant
            marks@ == word_marks(name@.take(i as int)),
    {
        let c = name[i];
        marks.push(c == ' ' || c == '-' || c == ':');
        assert(marks@ =~= word_marks(name@.take(i + 1)));
    }
    assert(name@.take(name@.len() as int) == name@);
    split_at_marks(name, &marks)
}

impl EmojiWords {
    /// Folded search terms, name first.
    pub fn terms(&self) -> (res: Vec<String>)
        ensures
            strings(res@) == terms_of(self.folded@),
    {
        let folded = chars_of(self.folded.as_str());
        let terms = split_char(&folded, '|');
        strings_of(&terms)
    }

    /// Ranks a folded query like the English name: exact name, then word
    /// prefix or exact keyword, then keyword prefix, then anywhere.
    pub fn match_score(&self, query: &str) -> (res: Option<u8>)
        ensures
            res == score(self.folded@, query@),
    {
        let folded = chars_of(self.folded.as_str());
        let query = chars_of(query);
        let terms = split_char(&folded, '|');
        proof {
            lemma_split_marked_nonempty(folded@, crate::text::marks_of(folded@, '|'));
        }
        let name = terms[0].as_slice();
        assert(name@ == terms_of(self.folded@)[0]);
        if same_chars(name, &query) {
            return Some(2);
        }
        let words = words(name);
        if any_prefixed(&words, 0, &query) || any_equal(&terms, 1, &query) {
            return Some(3);
        }
        if any_prefixed(&terms, 1, &query) {
            Some(4)
        } else if any_infix(&terms, 0, &query) {
            Some(5)
        } else {
            None
        }
    }

    /// `:cara_llorando_de_risa:` from the localized name.
    pub fn shortcode(&self) -> (res: String)
        ensures
            res@ == shortcode_of(self.folded@),
            is_latin1(terms_of(self.folded@)[0]) ==> res@ == latin1_shortcode_of(self.folded@),
    {
        let folded = chars_of(self.folded.as_str());
        let terms = split_char(&folded, '|');
        proof {
            lemma_split_marked_nonempty(folded@, crate::text::marks_of(folded@, '|'));
        }
        let name = terms[0].as_slice();
        let mut marks: Vec<bool> = Vec::new();
        for i in 0..name.len()
            invariant
                marks@ == slug_marks(name@.take(i as int)),
                forall|j: int|
                    0 <= j < i ==> ((#[trigger] name@[j] as int) < 256 ==> alphanumeric(name@[j])
                        == latin1_alphanumeric(name@[j])),
        {
            let cut = !is_alphanumeric(name[i]);
            marks.push(cut);
            assert(marks@ =~= slug_marks(name@.take(i + 1)));
        }
        assert(name@.take(name@.len() as int) == name@);
        proof {
            if is_latin1(name@) {
                assert(slug_marks(name@) =~= latin1_slug_marks(name@));
            }
        }
        let parts = split_at_marks(name, &marks);
        let ghost all = pieces(parts@);
        let mut body = String::new();
        let mut first = true;
        for k in 0..parts.len()
            invariant
                all == pieces(parts@),
                first == (nonempty(all.take(k as int)).len() == 0),
                body@ == join(nonempty(all.take(k as int)), "_"@),
        {
            let ghost kept = nonempty(all.take(k as int));
            assert(all.take(k + 1).drop_last() == all.take(k as int));
            assert(all.take(k + 1).last() == parts@[k as int]@);
            if parts[k].len() > 0 {
                if !first {
                    body.append("_");
                }
                let piece = string_of(parts[k].as_slice());
                body.append(piece.as_str());
                first = false;
                assert(kept.push(parts@[k as int]@).drop_last() == kept);
            }
        }
        assert(all.take(parts@.len() as int) == all);
        let mut out = ":".to_owned();
        out.append(body.as_str());
        out.append(":");
        out
    }
}

/// A line without the carriage return before its line feed.
pub open spec fn strip_cr(line: Seq<char>) -> Seq<char> {
    if line.len() > 0 && line.last() == '\r' {
        line.drop_last()
    } else {
        line
    }
}

/// `strip_cr` on each line.
pub open spec fn strip_crs(lines: Seq<Seq<char>>) -> Seq<Seq<char>> {
    lines.map_values(|l: Seq<char>| strip_cr(l))
}

/// `str::lines`: the text split at line feeds, each line that ended in a
/// line feed without a carriage return before it, and no empty line after
/// a final line feed.
pub open spec fn lines_of(text: Seq<char>) -> Seq<Seq<char>> {
    let p = split_on(text, '\n');
    let ended = strip_crs(p.drop_last());
    if p.last().len() == 0 {
        ended
    } else {
        ended.push(p.last())
    }
}

/// The entry of one `emoji<TAB>name|keyword|...` line: the emoji without
/// variation selectors, the name, and the folded name and keywords.
pub open spec fn entry_of(line: Seq<char>) -> Option<(Seq<char>, Seq<char>, Seq<char>)> {
    match split_once(line, seq!['\t']) {
        Some((emoji, words)) => Some((without(emoji, '\u{FE0F}'), split_on(words, '|')[0], folded(words))),
        None => None,
    }
}

/// The entries of the lines that hold a tab, in order.
pub open spec fn entries_of(lines: Seq<Seq<char>>) -> Seq<(Seq<char>, Seq<char>, Seq<char>)>
    decreases lines.len(),
{
    if lines.len() == 0 {
        Seq::empty()
    } else {
        match entry_of(lines.last()) {
            Some(e) => entries_of(lines.drop_last()).push(e),
            None => entries_of(lines.drop_last()),
        }
    }
}

/// The table of entries, a later entry replacing an earlier one for the
/// same emoji.
pub open spec fn table_of(entries: Seq<(Seq<char>, Seq<char>, Seq<char>)>) -> Map<Seq<char>, (Seq<char>, Seq<char>)>
    decreases entries.len(),
{
    if entries.len() == 0 {
        Map::empty()
    } else {
        let e = entries.last();
        table_of(entries.drop_last()).insert(e.0, (e.1, e.2))
    }
}

/// The table that a TSV of `emoji<TAB>name|keyword|...` lines describes.
pub open spec fn parsed(tsv: Seq<char>) -> Map<Seq<char>, (Seq<char>, Seq<char>)> {
    table_of(entries_of(lines_of(tsv)))
}

/// The names and keywords of an entry agree: the name holds no `|`, and the
/// folded list begins with the folded name.
pub open spec fn consistent_words(name: Seq<char>, folded_list: Seq<char>) -> bool {
    !name.contains('|') && terms_of(folded_list)[0] == folded(name)
}

/// Emoji names and keywords of one language, by emoji.
pub struct EmojiTable {
    words: vstd::hash_map::StringHashMap<EmojiWords>,
}

/// The names and keywords of one entry.
pub open spec fn words_view(w: EmojiWords) -> (Seq<char>, Seq<char>) {
    (w.name@, w.folded@)
}

/// The names and keywords of each entry of `m`.
pub open spec fn views_of(m: Map<Seq<char>, EmojiWords>) -> Map<Seq<char>, (Seq<char>, Seq<char>)> {
    m.map_values(|w: EmojiWords| words_view(w))
}

impl View for EmojiTable {
    type V = Map<Seq<char>, (Seq<char>, Seq<char>)>;

    closed spec fn view(&self) -> Map<Seq<char>, (Seq<char>, Seq<char>)> {
        views_of(self.words@)
    }
}

impl EmojiTable {
    /// Every entry of the table is consistent.
    #[verifier::type_invariant]
    spec fn every_entry_consistent(self) -> bool {
        forall|k: Seq<char>|
            #[trigger] self.words@.contains_key(k) ==> consistent_words(self.words@[k].name@, self.words@[k].folded@)
    }
}

/// The lines of a text.
fn lines(text: &[char]) -> (res: Vec<Vec<char>>)
    ensures
        pieces(res@) == lines_of(text@),
{
    let p = split_char(text, '\n');
    proof {
        lemma_split_marked_nonempty(text@, crate::text::marks_of(text@, '\n'));
    }
    let ghost all = pieces(p@);
    let n = p.len() - 1;
    let mut res: Vec<Vec<char>> = Vec::new();
    for i in 0..n
        invariant
            n + 1 == p@.len(),
            all == pieces(p@),
            pieces(res@) == strip_crs(all.take(i as int)),
    {
        let line = p[i].as_slice();
        let len = line.len();
        let kept = if len > 0 && line[len - 1] == '\r' {
            crate::text::slice_chars(line, 0, len - 1)
        } else {
            crate::text::slice_chars(line, 0, len)
        };
        assert(kept@ == strip_cr(all[i as int]));
        let ghost prev = res@;
        res.push(kept);
        assert(pieces(res@) =~= pieces(prev).push(kept@));
        assert(strip_crs(all.take(i + 1)) =~= strip_crs(all.take(i as int)).push(strip_cr(all[i as int])));
    }
    assert(all.take(n as int) == all.drop_last());
    let last = p[n].as_slice();
    if last.len() > 0 {
        let ghost prev = res@;
        let copy = crate::text::slice_chars(last, 0, last.len());
        assert(copy@ =~= all.last());
        res.push(copy);
        assert(pieces(res@) =~= pieces(prev).push(all.last()));
    }
    res
}

/// Parses a TSV of `emoji<TAB>name|keyword|...` lines; lines without a tab
/// are skipped, and a later line for an emoji replaces an earlier one.
pub fn parse(tsv: &str) -> (table: EmojiTable)
    ensures
        table@ == parsed(tsv@),
{
    let text = chars_of(tsv);
    let ls = lines(&text);
    let ghost all = pieces(ls@);
    let tab: Vec<char> = vec!['\t'];
    assert(tab@ =~= seq!['\t']);
    let mut words = vstd::hash_map::StringHashMap::<EmojiWords>::new();
    for i in 0..ls.len()
        invariant
            all == pieces(ls@),
            tab@ == seq!['\t'],
            views_of(words@) == table_of(entries_of(all.take(i as int))),
            forall|k: Seq<char>|
                #[trigger] words@.contains_key(k) ==> consistent_words(words@[k].name@, words@[k].folded@),
    {
        assert(all.take(i + 1).drop_last() == all.take(i as int));
        assert(all.take(i + 1).last() == all[i as int]);
        match split_once_chars(ls[i].as_slice(), tab.as_slice()) {
            Some((emoji, list)) => {
                let key = remove_char(&emoji, '\u{FE0F}');
                let parts = split_char(&list, '|');
                proof {
                    lemma_split_marked_nonempty(list@, marks_of(list@, '|'));
                    crate::text::lemma_split_pieces_lack_separator(list@, '|', 0);
                }
                let name = string_of(parts[0].as_slice());
                let f = fold_chars(&list);
                let folded_list = string_of(&f);
                let entry = EmojiWords { name, folded: folded_list };
                assert(consistent_words(entry.name@, entry.folded@));
                let ghost prev = words@;
                words.insert(string_of(&key), entry);
                assert(views_of(words@) =~= views_of(prev).insert(key@, words_view(entry)));
                assert(entry_of(all[i as int]) == Some((key@, entry.name@, entry.folded@)));
                let ghost e = (key@, entry.name@, entry.folded@);
                assert(entries_of(all.take(i + 1)) == entries_of(all.take(i as int)).push(e));
                assert(entries_of(all.take(i as int)).push(e).drop_last() =~= entries_of(all.take(i as int)));
                assert(table_of(entries_of(all.take(i + 1))) == table_of(entries_of(all.take(i as int))).insert(
                    key@,
                    (entry.name@, entry.folded@),
                ));
            },
            None => {},
        }
    }
    assert(all.take(ls@.len() as int) == all);
    EmojiTable { words }
}

/// The key an emoji is looked up by: the emoji without variation selectors.
pub open spec fn lookup_key(emoji: Seq<char>) -> Seq<char> {
    without(emoji, '\u{FE0F}')
}

/// Names and keywords for `emoji` in `locale`, from `table`, the table of
/// that language. English has none: callers already search the English
/// names and shortcodes. What comes back is consistent: its folded list
/// begins with its folded name.
pub fn lookup<'a>(table: &'a EmojiTable, locale: Locale, emoji: &str) -> (res: Option<&'a EmojiWords>)
    ensures
        ({
            let key = lookup_key(emoji@);
            match res {
                Some(w) => {
                    &&& locale == Locale::Spanish && table@.contains_key(key)
                    &&& table@[key] == (w.name@, w.folded@)
                    &&& consistent_words(w.name@, w.folded@)
                },
                None => !(locale == Locale::Spanish && table@.contains_key(key)),
            }
        }),
{
    proof {
        use_type_invariant(table);
    }
    if locale != Locale::Spanish {
        return None;
    }
    let chars = chars_of(emoji);
    let key = string_of(&remove_char(&chars, '\u{FE0F}'));
    let res = table.words.get(key.as_str());
    proof {
        if res is Some {
            assert(table@[key@] == words_view(table.words@[key@]));
        }
    }
    res
}

/// Lookups ignore variation selectors: an emoji with a variation selector
/// after it, or with its selectors already removed, is looked up by the
/// same key as the emoji itself.
pub proof fn law_lookup_ignores_variation_selectors(emoji: Seq<char>)
    ensures
        lookup_key(emoji.push('\u{FE0F}')) == lookup_key(emoji),
        lookup_key(lookup_key(emoji)) == lookup_key(emoji),
{
    assert(emoji.push('\u{FE0F}').drop_last() == emoji);
    crate::text::lemma_without_twice(emoji, '\u{FE0F}');
}

/// Folded text holds none of the accented Latin letters that Spanish search
/// ignores: whatever the lowercase mapping gives, each of á à â ä ã é è ê ë
/// í ì î ï ó ò ô ö õ ú ù û ü ñ ç is replaced by its plain letter.
pub proof fn law_folded_text_has_no_accents(text: Seq<char>, i: int)
    requires
        0 <= i < folded(text).len(),
    ensures
        ({
            let c = folded(text)[i];
            &&& c != 'á' && c != 'à' && c != 'â' && c != 'ä' && c != 'ã'
            &&& c != 'é' && c != 'è' && c != 'ê' && c != 'ë'
            &&& c != 'í' && c != 'ì' && c != 'î' && c != 'ï'
            &&& c != 'ó' && c != 'ò' && c != 'ô' && c != 'ö' && c != 'õ'
            &&& c != 'ú' && c != 'ù' && c != 'û' && c != 'ü'
            &&& c != 'ñ' && c != 'ç'
        }),
    decreases text.len(),
{
    let t = text.drop_last();
    let tail = strip_accents(lowercase(text.last()));
    assert(folded(text) == folded(t) + tail);
    if i < folded(t).len() {
        law_folded_text_has_no_accents(t, i);
    } else {
        assert(folded(text)[i] == strip_accent(lowercase(text.last())[i - folded(t).len()]));
    }
}

/// Each accented letter of Latin-1, small or capital, folds to its plain
/// small letter: `á` and `Á` to `a`, `í` and `Í` to `i`, `ñ` and `Ñ` to `n`,
/// and so on; every other Latin-1 letter A-Z folds to its small letter.
pub proof fn law_latin1_accents_fold_to_plain_letters(c: char)
    requires
        (c as int) < 256,
    ensures
        ('A' <= c <= 'Z' || 'a' <= c <= 'z') ==> latin1_fold_char(c) as int == (if c <= 'Z' { c as int + 32 } else { c as int }),
        (c == 'á' || c == 'à' || c == 'â' || c == 'ä' || c == 'ã' || c == 'Á' || c == 'À' || c == 'Â' || c == 'Ä' || c == 'Ã') ==> latin1_fold_char(c) == 'a',
        (c == 'é' || c == 'è' || c == 'ê' || c == 'ë' || c == 'É' || c == 'È' || c == 'Ê' || c == 'Ë') ==> latin1_fold_char(c) == 'e',
        (c == 'í' || c == 'ì' || c == 'î' || c == 'ï' || c == 'Í' || c == 'Ì' || c == 'Î' || c == 'Ï') ==> latin1_fold_char(c) == 'i',
        (c == 'ó' || c == 'ò' || c == 'ô' || c == 'ö' || c == 'õ' || c == 'Ó' || c == 'Ò' || c == 'Ô' || c == 'Ö' || c == 'Õ') ==> latin1_fold_char(c) == 'o',
        (c == 'ú' || c == 'ù' || c == 'û' || c == 'ü' || c == 'Ú' || c == 'Ù' || c == 'Û' || c == 'Ü') ==> latin1_fold_char(c) == 'u',
        (c == 'ñ' || c == 'Ñ') ==> latin1_fold_char(c) == 'n',
        (c == 'ç' || c == 'Ç') ==> latin1_fold_char(c) == 'c',
{
}

proof fn lemma_entries_come_from_lines(ls: Seq<Seq<char>>, m: int)
    requires
        0 <= m < entries_of(ls).len(),
    ensures
        exists|j: int| 0 <= j < ls.len() && entry_of(#[trigger] ls[j]) == Some(entries_of(ls)[m]),
    decreases ls.len(),
{
    let t = ls.drop_last();
    match entry_of(ls.last()) {
        Some(e) => {
            if m < entries_of(t).len() {
                lemma_entries_come_from_lines(t, m);
                let j = choose|j: int| 0 <= j < t.len() && entry_of(#[trigger] t[j]) == Some(entries_of(t)[m]);
                assert(ls[j] == t[j]);
            } else {
                assert(entry_of(ls[ls.len() - 1]) == Some(entries_of(ls)[m]));
            }
        },
        None => {
            lemma_entries_come_from_lines(t, m);
            let j = choose|j: int| 0 <= j < t.len() && entry_of(#[trigger] t[j]) == Some(entries_of(t)[m]);
            assert(ls[j] == t[j]);
        },
    }
}

proof fn lemma_table_comes_from_entries(es: Seq<(Seq<char>, Seq<char>, Seq<char>)>, k: Seq<char>)
    requires
        table_of(es).contains_key(k),
    ensures
        exists|m: int| 0 <= m < es.len() && (#[trigger] es[m]).0 == k && table_of(es)[k] == (es[m].1, es[m].2),
    decreases es.len(),
{
    let t = es.drop_last();
    if es.last().0 == k {
        assert(es[es.len() - 1].0 == k);
    } else {
        lemma_table_comes_from_entries(t, k);
        let m = choose|m: int| 0 <= m < t.len() && (#[trigger] t[m]).0 == k && table_of(t)[k] == (t[m].1, t[m].2);
        assert(es[m] == t[m]);
    }
}

/// Every entry of a parsed table comes from a line `emoji<TAB>words` of the
/// text: its key is the emoji without variation selectors, its name is the
/// text of `words` up to the first `|`, unchanged (accents and capitals
/// kept), and its folded list is all of `words` folded.
pub proof fn law_parsed_names_are_verbatim(tsv: Seq<char>, k: Seq<char>)
    requires
        parsed(tsv).contains_key(k),
    ensures
        exists|j: int| {
            let emoji = split_once(lines_of(tsv)[j], seq!['\t']).unwrap().0;
            let words = split_once(lines_of(tsv)[j], seq!['\t']).unwrap().1;
            &&& 0 <= j < lines_of(tsv).len()
            &&& split_once(#[trigger] lines_of(tsv)[j], seq!['\t']) is Some
            &&& without(emoji, '\u{FE0F}') == k
            &&& parsed(tsv)[k].0.is_prefix_of(words)
            &&& !parsed(tsv)[k].0.contains('|')
            &&& parsed(tsv)[k].0.len() < words.len() ==> words[parsed(tsv)[k].0.len() as int] == '|'
            &&& parsed(tsv)[k].1 == folded(words)
        },
{
    let ls = lines_of(tsv);
    let es = entries_of(ls);
    lemma_table_comes_from_entries(es, k);
    let m = choose|m: int| 0 <= m < es.len() && (#[trigger] es[m]).0 == k && table_of(es)[k] == (es[m].1, es[m].2);
    lemma_entries_come_from_lines(ls, m);
    let j = choose|j: int| 0 <= j < ls.len() && entry_of(#[trigger] ls[j]) == Some(es[m]);
    let (emoji, words) = split_once(ls[j], seq!['\t'])->0;
    crate::text::lemma_first_piece(words, '|');
    assert(split_once(ls[j], seq!['\t']) == Some((emoji, words)));
}

/// A query ranks 2, the best, exactly when it is the whole folded name: the
/// text of the folded list up to its first `|`.
pub proof fn law_best_score_is_the_exact_name(folded_list: Seq<char>, query: Seq<char>)
    ensures
        score(folded_list, query) == Some(2u8) <==> {
            &&& query.is_prefix_of(folded_list)
            &&& !query.contains('|')
            &&& query.len() < folded_list.len() ==> folded_list[query.len() as int] == '|'
        },
{
    crate::text::lemma_first_piece(folded_list, '|');
    let name = terms_of(folded_list)[0];
    if query.is_prefix_of(folded_list) && !query.contains('|') && (query.len() < folded_list.len()
        ==> folded_list[query.len() as int] == '|') {
        if query.len() < name.len() {
            assert(name[query.len() as int] == folded_list[query.len() as int]);
        } else if name.len() < query.len() {
            assert(query[name.len() as int] == folded_list[name.len() as int]);
        } else {
            assert(query =~= name);
        }
    }
}

} // verus!
