//! Track-label templates.
//!
//! A template is a small format string with `{TOKEN}` placeholders. Tokens
//! resolve to metadata fields on a `TrackMetadata`; unknown or missing fields
//! resolve to empty. Rendering then walks the substituted output and cleans
//! away separator punctuation that surrounded the empty fields.
//!
//! Cleanup uses a private sentinel character (`\u{0001}`) to mark each empty
//! field at render time. The cleanup pass collapses runs of
//! `[separator chars] [sentinel(s)] [separator chars]` to a single normalized
//! separator, drops leading/trailing separator runs, and keeps interior runs
//! without sentinels verbatim. If the final string is empty, the label falls
//! back to the filename.

use vstd::prelude::*;

use super::metadata::TrackMetadata;
use crate::text::{clone_opt, opt_view};
use crate::text::{
    ascii_upper, chars_equal, chars_of, extend_from_range, push_char, string_from_chars,
    string_from_range, to_ascii_upper, upper_char,
};

verus! {

/// Placeholder written in place of an empty field before cleanup.
pub const EMPTY: char = '\u{0001}';

/// A metadata field a `{TOKEN}` can name.
#[derive(Debug, Clone, Copy, PartialEq, Eq)]
pub enum Field {
    Artist,
    Title,
    Album,
    AlbumArtist,
    Year,
    Track,
    Genre,
    Composer,
    Comment,
    Filename,
    Path,
    Unknown,
}

/// The field a token name selects, compared case-insensitively (ASCII).
pub open spec fn field_named(raw: Seq<char>) -> Field {
    let u = ascii_upper(raw);
    if u == "ARTIST"@ {
        Field::Artist
    } else if u == "TITLE"@ {
        Field::Title
    } else if u == "ALBUM"@ {
        Field::Album
    } else if u == "ALBUMARTIST"@ {
        Field::AlbumArtist
    } else if u == "YEAR"@ {
        Field::Year
    } else if u == "TRACK"@ {
        Field::Track
    } else if u == "GENRE"@ {
        Field::Genre
    } else if u == "COMPOSER"@ {
        Field::Composer
    } else if u == "COMMENT"@ {
        Field::Comment
    } else if u == "FILENAME"@ {
        Field::Filename
    } else if u == "PATH"@ {
        Field::Path
    } else {
        Field::Unknown
    }
}

/// The value a field takes on the given metadata.
pub open spec fn field_value(f: Field, meta: TrackMetadata) -> Option<Seq<char>> {
    match f {
        Field::Artist => opt_view(meta.artist),
        Field::Title => opt_view(meta.title),
        Field::Album => opt_view(meta.album),
        Field::AlbumArtist => opt_view(meta.album_artist),
        Field::Year => opt_view(meta.year),
        Field::Track => opt_view(meta.track),
        Field::Genre => opt_view(meta.genre),
        Field::Composer => opt_view(meta.composer),
        Field::Comment => opt_view(meta.comment),
        Field::Filename => Some(meta.filename@),
        Field::Path => opt_view(meta.path),
        Field::Unknown => None,
    }
}

fn name_is(u: &Vec<char>, name: &str) -> (r: bool)
    ensures
        r == (u@ == name@),
{
    chars_equal(u, &chars_of(name))
}

impl Field {
    /// The field named by `raw` (case-insensitive); `Unknown` for any other name.
    pub fn from_name(raw: &str) -> (f: Field)
        ensures
            f == field_named(raw@),
    {
        let u = to_ascii_upper(&chars_of(raw));
        if name_is(&u, "ARTIST") {
            Field::Artist
        } else if name_is(&u, "TITLE") {
            Field::Title
        } else if name_is(&u, "ALBUM") {
            Field::Album
        } else if name_is(&u, "ALBUMARTIST") {
            Field::AlbumArtist
        } else if name_is(&u, "YEAR") {
            Field::Year
        } else if name_is(&u, "TRACK") {
            Field::Track
        } else if name_is(&u, "GENRE") {
            Field::Genre
        } else if name_is(&u, "COMPOSER") {
            Field::Composer
        } else if name_is(&u, "COMMENT") {
            Field::Comment
        } else if name_is(&u, "FILENAME") {
            Field::Filename
        } else if name_is(&u, "PATH") {
            Field::Path
        } else {
            Field::Unknown
        }
    }

    /// The value of this field on `meta`.
    pub fn resolve(&self, meta: &TrackMetadata) -> (r: Option<String>)
        ensures
            opt_view(r) == field_value(*self, *meta),
            *self == Field::Artist ==> opt_view(r) == opt_view(meta.artist),
            *self == Field::Title ==> opt_view(r) == opt_view(meta.title),
            *self == Field::Album ==> opt_view(r) == opt_view(meta.album),
            *self == Field::AlbumArtist ==> opt_view(r) == opt_view(meta.album_artist),
            *self == Field::Year ==> opt_view(r) == opt_view(meta.year),
            *self == Field::Track ==> opt_view(r) == opt_view(meta.track),
            *self == Field::Genre ==> opt_view(r) == opt_view(meta.genre),
            *self == Field::Composer ==> opt_view(r) == opt_view(meta.composer),
            *self == Field::Comment ==> opt_view(r) == opt_view(meta.comment),
            *self == Field::Filename ==> opt_view(r) == Some(meta.filename@),
            *self == Field::Path ==> opt_view(r) == opt_view(meta.path),
            *self == Field::Unknown ==> r is None,
    {
        match self {
            Field::Artist => clone_opt(&meta.artist),
            Field::Title => clone_opt(&meta.title),
            Field::Album => clone_opt(&meta.album),
            Field::AlbumArtist => clone_opt(&meta.album_artist),
            Field::Year => clone_opt(&meta.year),
            Field::Track => clone_opt(&meta.track),
            Field::Genre => clone_opt(&meta.genre),
            Field::Composer => clone_opt(&meta.composer),
            Field::Comment => clone_opt(&meta.comment),
            Field::Filename => Some(meta.filename.clone()),
            Field::Path => clone_opt(&meta.path),
            Field::Unknown => None,
        }
    }
}

/// One piece of a parsed template.
#[derive(Debug, Clone, PartialEq, Eq)]
enum Token {
    Literal(String),
    Field(Field),
}

/// The mathematical form of a template piece.
pub enum TokenModel {
    Literal(Seq<char>),
    Field(Field),
}

impl View for Token {
    type V = TokenModel;

    closed spec fn view(&self) -> TokenModel {
        match self {
            Token::Literal(s) => TokenModel::Literal(s@),
            Token::Field(f) => TokenModel::Field(*f),
        }
    }
}

/// A parsed track-label template.
#[derive(Debug, Clone, PartialEq, Eq)]
pub struct Template {
    tokens: Vec<Token>,
}

impl View for Template {
    type V = Seq<TokenModel>;

    closed spec fn view(&self) -> Seq<TokenModel> {
        self.tokens@.map_values(|t: Token| t@)
    }
}

// ----- Tokenizer --------------------------------------------------------

pub open spec fn is_alpha(c: char) -> bool {
    ('a' <= c && c <= 'z') || ('A' <= c && c <= 'Z')
}

pub open spec fn is_name_char(c: char) -> bool {
    is_alpha(c) || ('0' <= c && c <= '9') || c == '_'
}

/// End of the run of name characters starting at `k`.
pub open spec fn name_rest_end(s: Seq<char>, k: int) -> int
    decreases s.len() - k,
{
    if 0 <= k < s.len() && is_name_char(s[k]) {
        name_rest_end(s, k + 1)
    } else {
        k
    }
}

/// End of the token name starting at `j`: a letter followed by letters,
/// digits and underscores; `j` itself when there is no such name.
pub open spec fn name_end(s: Seq<char>, j: int) -> int {
    if 0 <= j < s.len() && is_alpha(s[j]) {
        name_rest_end(s, j + 1)
    } else {
        j
    }
}

/// Whether a `{` at `i` opens a valid `{NAME}` token.
pub open spec fn opens_token(s: Seq<char>, i: int) -> bool {
    let e = name_end(s, i + 1);
    e > i + 1 && e < s.len() && s[e] == '}'
}

/// Appends `lit` as a literal piece when it is not empty.
pub open spec fn flush(toks: Seq<TokenModel>, lit: Seq<char>) -> Seq<TokenModel> {
    if lit.len() > 0 {
        toks.push(TokenModel::Literal(lit))
    } else {
        toks
    }
}

pub proof fn lemma_name_rest_end_bounds(s: Seq<char>, k: int)
    requires
        0 <= k <= s.len(),
    ensures
        k <= name_rest_end(s, k) <= s.len(),
    decreases s.len() - k,
{
    if k < s.len() && is_name_char(s[k]) {
        lemma_name_rest_end_bounds(s, k + 1);
    }
}

pub proof fn lemma_name_end_bounds(s: Seq<char>, j: int)
    requires
        0 <= j <= s.len(),
    ensures
        j <= name_end(s, j) <= s.len(),
{
    if j < s.len() && is_alpha(s[j]) {
        lemma_name_rest_end_bounds(s, j + 1);
    }
}

/// Tokenizes `s` from position `i`, with `lit` the literal text gathered so
/// far and `toks` the pieces already emitted.
pub open spec fn tokenize(s: Seq<char>, i: int, lit: Seq<char>, toks: Seq<TokenModel>) -> Seq<
    TokenModel,
>
    decreases s.len() - i,
{
    if i < 0 || i >= s.len() {
        flush(toks, lit)
    } else if s[i] != '{' {
        tokenize(s, i + 1, lit.push(s[i]), toks)
    } else {
        let e = name_end(s, i + 1);
        proof {
            lemma_name_end_bounds(s, i + 1);
        }
        if opens_token(s, i) {
            tokenize(
                s,
                e + 1,
                Seq::empty(),
                flush(toks, lit).push(TokenModel::Field(field_named(s.subrange(i + 1, e)))),
            )
        } else {
            tokenize(s, e, lit.push('{') + s.subrange(i + 1, e), toks)
        }
    }
}

/// The pieces of a template source.
pub open spec fn template_tokens(src: Seq<char>) -> Seq<TokenModel> {
    tokenize(src, 0, Seq::empty(), Seq::empty())
}

// ----- Rendering ----------------------------------------------------------

/// The raw text one piece contributes before cleanup.
pub open spec fn piece_text(t: TokenModel, meta: TrackMetadata) -> Seq<char> {
    match t {
        TokenModel::Literal(s) => s,
        TokenModel::Field(f) => match field_value(f, meta) {
            Some(v) => if v.len() > 0 {
                v
            } else {
                seq![EMPTY]
            },
            None => seq![EMPTY],
        },
    }
}

/// The substituted text of a template before cleanup.
pub open spec fn raw_text(toks: Seq<TokenModel>, meta: TrackMetadata) -> Seq<char>
    decreases toks.len(),
{
    if toks.len() == 0 {
        Seq::empty()
    } else {
        raw_text(toks.drop_last(), meta) + piece_text(toks.last(), meta)
    }
}

/// Separator characters trimmed around empty fields. `/`, `\` and `:` are
/// deliberately not separators: they occur inside paths and times.
pub open spec fn is_sep(c: char) -> bool {
    c == ' ' || c == '\t' || c == '-' || c == '\u{2013}' || c == '\u{2014}' || c == ','
        || c == '|' || c == ';'
}

pub open spec fn is_sep_or_empty_spec(c: char) -> bool {
    is_sep(c) || c == EMPTY
}

/// End of the run of separators/placeholders starting at `j`.
pub open spec fn run_end(s: Seq<char>, j: int) -> int
    decreases s.len() - j,
{
    if 0 <= j < s.len() && is_sep_or_empty_spec(s[j]) {
        run_end(s, j + 1)
    } else {
        j
    }
}

pub proof fn lemma_run_end_bounds(s: Seq<char>, j: int)
    requires
        0 <= j <= s.len(),
    ensures
        j <= run_end(s, j) <= s.len(),
        run_end(s, j) < s.len() ==> !is_sep_or_empty_spec(s[run_end(s, j)]),
        forall|k: int| j <= k < run_end(s, j) ==> is_sep_or_empty_spec(#[trigger] s[k]),
    decreases s.len() - j,
{
    if j < s.len() && is_sep_or_empty_spec(s[j]) {
        lemma_run_end_bounds(s, j + 1);
    }
}

/// Whether `s[i..j]` holds a placeholder.
pub open spec fn run_has_empty(s: Seq<char>, i: int, j: int) -> bool
    decreases j - i,
{
    if j <= i {
        false
    } else {
        run_has_empty(s, i, j - 1) || s[j - 1] == EMPTY
    }
}

/// The first separator in `s[i..j]` that is neither a placeholder nor
/// whitespace.
pub open spec fn run_first_mark(s: Seq<char>, i: int, j: int) -> Option<char>
    decreases j - i,
{
    if j <= i {
        None
    } else {
        let p = run_first_mark(s, i, j - 1);
        if p is Some {
            p
        } else if s[j - 1] != EMPTY && s[j - 1] != ' ' && s[j - 1] != '\t' {
            Some(s[j - 1])
        } else {
            None
        }
    }
}

/// What an interior run of separators becomes in the cleaned text.
pub open spec fn run_replacement(s: Seq<char>, i: int, j: int) -> Seq<char> {
    if run_has_empty(s, i, j) {
        match run_first_mark(s, i, j) {
            Some(m) => seq![' ', m, ' '],
            None => seq![' '],
        }
    } else {
        s.subrange(i, j)
    }
}

/// Cleaned text from position `i` on, where `i` is not inside a run.
pub open spec fn clean_from(s: Seq<char>, i: int) -> Seq<char>
    decreases s.len() - i,
{
    if i < 0 || i >= s.len() {
        Seq::empty()
    } else if !is_sep_or_empty_spec(s[i]) {
        seq![s[i]] + clean_from(s, i + 1)
    } else {
        let j = run_end(s, i);
        proof {
            lemma_run_end_bounds(s, i);
            lemma_run_end_bounds(s, i + 1);
        }
        if j >= s.len() {
            Seq::empty()
        } else {
            run_replacement(s, i, j) + clean_from(s, j)
        }
    }
}

/// The cleaned form of a substituted template: the leading and trailing
/// separator runs dropped, interior runs holding a placeholder normalized.
pub open spec fn cleaned(s: Seq<char>) -> Seq<char> {
    let i = run_end(s, 0);
    if i >= s.len() {
        Seq::empty()
    } else {
        clean_from(s, i)
    }
}

/// The label a template renders for `meta`.
pub open spec fn rendered(toks: Seq<TokenModel>, meta: TrackMetadata) -> Seq<char> {
    let c = cleaned(raw_text(toks, meta));
    if c.len() == 0 {
        meta.filename@
    } else {
        c
    }
}

fn is_separator(c: char) -> (r: bool)
    ensures
        r == is_sep(c),
{
    c == ' ' || c == '\t' || c == '-' || c == '\u{2013}' || c == '\u{2014}' || c == ','
        || c == '|' || c == ';'
}

fn is_sep_or_empty(c: char) -> (r: bool)
    ensures
        r == is_sep_or_empty_spec(c),
{
    is_separator(c) || c == EMPTY
}

fn alpha(c: char) -> (r: bool)
    ensures
        r == is_alpha(c),
{
    ('a' <= c && c <= 'z') || ('A' <= c && c <= 'Z')
}

fn name_char(c: char) -> (r: bool)
    ensures
        r == is_name_char(c),
{
    alpha(c) || ('0' <= c && c <= '9') || c == '_'
}

/// Clean up `raw` so that runs of separator/placeholder characters
/// surrounding empty fields leave no stray punctuation.
fn cleanup(raw: &Vec<char>) -> (out: Vec<char>)
    ensures
        out@ == cleaned(raw@),
{
    let ghost s = raw@;
    let n = raw.len();
    let mut i: usize = 0;
    while i < n && is_sep_or_empty(raw[i])
        invariant
            n == s.len(),
            s == raw@,
            i <= n,
            run_end(s, 0) == run_end(s, i as int),
        decreases n - i,
    {
        i = i + 1;
    }
    if i >= n {
        return Vec::new();
    }
    let mut out: Vec<char> = Vec::new();
    while i < n
        invariant
            n == s.len(),
            s == raw@,
            i <= n,
            out@ + clean_from(s, i as int) == cleaned(s),
        decreases n - i,
    {
        let c = raw[i];
        if !is_sep_or_empty(c) {
            out.push(c);
            proof {
                assert(out@ + clean_from(s, i + 1) =~= old_out_plus(out@, s, i as int));
            }
            i = i + 1;
        } else {
            let mut j = i;
            let mut saw_empty = false;
            let mut mark: Option<char> = None;
            while j < n && is_sep_or_empty(raw[j])
                invariant
                    n == s.len(),
                    s == raw@,
                    i <= j <= n,
                    run_end(s, i as int) == run_end(s, j as int),
                    saw_empty == run_has_empty(s, i as int, j as int),
                    mark == run_first_mark(s, i as int, j as int),
                decreases n - j,
            {
                let cj = raw[j];
                if cj == EMPTY {
                    saw_empty = true;
                } else if cj != ' ' && cj != '\t' && mark.is_none() {
                    mark = Some(cj);
                }
                j = j + 1;
            }
            proof {
                lemma_run_end_bounds(s, i as int);
            }
            if j >= n {
                // Trailing run: dropped.
                i = n;
            } else {
                let ghost before = out@;
                if saw_empty {
                    out.push(' ');
                    if let Some(m) = mark {
                        out.push(m);
                        out.push(' ');
                    }
                } else {
                    extend_from_range(&mut out, raw, i, j);
                }
                assert(out@ =~= before + run_replacement(s, i as int, j as int));
                i = j;
            }
        }
    }
    out
}

spec fn old_out_plus(o: Seq<char>, s: Seq<char>, i: int) -> Seq<char> {
    o + clean_from(s, i + 1)
}

impl Template {
    /// Parse a template source into literal text and `{TOKEN}` fields. A
    /// token name starts with an ASCII letter followed by letters, digits or
    /// underscores and is closed by `}`; anything else is literal text.
    pub fn parse(src: &str) -> (t: Template)
        ensures
            t@ == template_tokens(src@),
    {
        let s = chars_of(src);
        let n = s.len();
        let mut tokens: Vec<Token> = Vec::new();
        let mut literal: Vec<char> = Vec::new();
        let mut i: usize = 0;
        assert(tokens@.map_values(|t: Token| t@) =~= Seq::<TokenModel>::empty());
        assert(literal@ =~= Seq::<char>::empty());
        while i < n
            invariant
                n == s@.len(),
                i <= n,
                src@ == s@,
                tokenize(s@, i as int, literal@, tokens@.map_values(|t: Token| t@))
                    == template_tokens(src@),
            decreases n - i,
        {
            let ghost toks_before = tokens@.map_values(|t: Token| t@);
            if s[i] != '{' {
                literal.push(s[i]);
                i = i + 1;
            } else {
                // Scan a token name: a letter, then letters, digits or '_'.
                let mut e = i + 1;
                if e < n && alpha(s[e]) {
                    e = e + 1;
                    while e < n && name_char(s[e])
                        invariant
                            n == s@.len(),
                            i + 2 <= e <= n,
                            name_rest_end(s@, e as int) == name_end(s@, i + 1),
                        decreases n - e,
                    {
                        e = e + 1;
                    }
                }
                proof {
                    lemma_name_end_bounds(s@, i + 1);
                }
                assert(e == name_end(s@, i + 1));
                if e == i + 1 || e >= n || s[e] != '}' {
                    literal.push('{');
                    extend_from_range(&mut literal, &s, i + 1, e);
                    i = e;
                } else {
                    let ghost lit_before = literal@;
                    if literal.len() > 0 {
                        tokens.push(Token::Literal(string_from_chars(&literal)));
                        literal = Vec::new();
                    }
                    assert(tokens@.map_values(|t: Token| t@) =~= flush(toks_before, lit_before));
                    let name = string_from_range(&s, i + 1, e);
                    let f = Field::from_name(name.as_str());
                    tokens.push(Token::Field(f));
                    assert(tokens@.map_values(|t: Token| t@) =~= flush(toks_before, lit_before).push(
                        TokenModel::Field(field_named(s@.subrange(i + 1, e as int))),
                    ));
                    assert(literal@ =~= Seq::<char>::empty());
                    i = e + 1;
                }
            }
        }
        let ghost toks_end = tokens@.map_values(|t: Token| t@);
        let ghost lit_end = literal@;
        if literal.len() > 0 {
            tokens.push(Token::Literal(string_from_chars(&literal)));
        }
        assert(tokens@.map_values(|t: Token| t@) =~= flush(toks_end, lit_end));
        Template { tokens }
    }

    /// Render the label for `meta`: fields substituted (empty or missing ones
    /// marked), the result cleaned, and the filename used when nothing is
    /// left.
    pub fn render(&self, meta: &TrackMetadata) -> (r: String)
        ensures
            r@ == rendered(self@, *meta),
    {
        let mut raw: Vec<char> = Vec::new();
        let mut k: usize = 0;
        while k < self.tokens.len()
            invariant
                k <= self.tokens@.len(),
                self@ == self.tokens@.map_values(|t: Token| t@),
                raw@ == raw_text(self@.subrange(0, k as int), *meta),
            decreases self.tokens@.len() - k,
        {
            let ghost before = raw@;
            match &self.tokens[k] {
                Token::Literal(s) => {
                    let cs = chars_of(s.as_str());
                    extend_from_range(&mut raw, &cs, 0, cs.len());
                    assert(cs@.subrange(0, cs@.len() as int) =~= cs@);
                },
                Token::Field(f) => {
                    match f.resolve(meta) {
                        Some(v) => {
                            let cs = chars_of(v.as_str());
                            if cs.len() > 0 {
                                extend_from_range(&mut raw, &cs, 0, cs.len());
                                assert(cs@.subrange(0, cs@.len() as int) =~= cs@);
                            } else {
                                raw.push(EMPTY);
                            }
                        },
                        None => {
                            raw.push(EMPTY);
                        },
                    }
                },
            }
            proof {
                let pre = self@.subrange(0, k + 1);
                assert(pre.drop_last() =~= self@.subrange(0, k as int));
                assert(pre.last() == self@[k as int]);
                assert(raw@ =~= before + piece_text(self@[k as int], *meta));
            }
            k = k + 1;
        }
        assert(self@.subrange(0, self@.len() as int) =~= self@);
        let cleaned_chars = cleanup(&raw);
        if cleaned_chars.len() == 0 {
            meta.filename.clone()
        } else {
            string_from_chars(&cleaned_chars)
        }
    }
}

// ----- Laws ---------------------------------------------------------------

/// A token list is well formed when no literal piece is empty and no two
/// literal pieces are adjacent.
pub open spec fn well_formed_tokens(toks: Seq<TokenModel>) -> bool {
    &&& forall|k: int|
        0 <= k < toks.len() ==> (#[trigger] toks[k] matches TokenModel::Literal(t) ==> t.len() > 0)
    &&& forall|k: int|
        0 <= k < toks.len() - 1 ==> (#[trigger] toks[k] is Literal ==> toks[k + 1] is Field)
}

proof fn lemma_tokenize_well_formed(s: Seq<char>, i: int, lit: Seq<char>, toks: Seq<TokenModel>)
    requires
        well_formed_tokens(toks),
        toks.len() > 0 ==> toks.last() is Field,
    ensures
        well_formed_tokens(tokenize(s, i, lit, toks)),
    decreases s.len() - i,
{
    if i < 0 || i >= s.len() {
        if lit.len() > 0 {
            let r = toks.push(TokenModel::Literal(lit));
            assert forall|k: int| 0 <= k < r.len() - 1 && #[trigger] r[k] is Literal implies r[
                k + 1
            ] is Field by {
                if k + 1 == toks.len() {
                    assert(r[k] == toks.last());
                } else {
                    assert(r[k] == toks[k] && r[k + 1] == toks[k + 1]);
                }
            }
            assert forall|k: int| 0 <= k < r.len() implies (#[trigger] r[k] matches TokenModel::Literal(
                t,
            ) ==> t.len() > 0) by {
                if k < toks.len() {
                    assert(r[k] == toks[k]);
                }
            }
        }
    } else if s[i] != '{' {
        lemma_tokenize_well_formed(s, i + 1, lit.push(s[i]), toks);
    } else {
        lemma_name_end_bounds(s, i + 1);
        let e = name_end(s, i + 1);
        if opens_token(s, i) {
            let f = flush(toks, lit);
            let r = f.push(TokenModel::Field(field_named(s.subrange(i + 1, e))));
            assert(well_formed_tokens(f)) by {
                if lit.len() > 0 {
                    assert forall|k: int| 0 <= k < f.len() - 1 && #[trigger] f[k] is Literal implies f[
                        k + 1
                    ] is Field by {
                        if k + 1 == toks.len() {
                            assert(f[k] == toks.last());
                        } else {
                            assert(f[k] == toks[k] && f[k + 1] == toks[k + 1]);
                        }
                    }
                    assert forall|k: int| 0 <= k < f.len() implies (#[trigger] f[k] matches TokenModel::Literal(
                        t,
                    ) ==> t.len() > 0) by {
                        if k < toks.len() {
                            assert(f[k] == toks[k]);
                        }
                    }
                }
            }
            assert forall|k: int| 0 <= k < r.len() - 1 && #[trigger] r[k] is Literal implies r[
                k + 1
            ] is Field by {
                assert(r[k] == f[k]);
                if k + 1 < f.len() {
                    assert(r[k + 1] == f[k + 1]);
                }
            }
            assert forall|k: int| 0 <= k < r.len() implies (#[trigger] r[k] matches TokenModel::Literal(
                t,
            ) ==> t.len() > 0) by {
                if k < f.len() {
                    assert(r[k] == f[k]);
                }
            }
            lemma_tokenize_well_formed(s, e + 1, Seq::empty(), r);
        } else {
            lemma_tokenize_well_formed(s, e, lit.push('{') + s.subrange(i + 1, e), toks);
        }
    }
}

/// Law: parsing any template source yields a well-formed token list: every
/// literal piece is non-empty and literal pieces are never adjacent (literal
/// text between two fields is gathered into one piece).
pub proof fn law_parse_well_formed(src: Seq<char>)
    ensures
        well_formed_tokens(template_tokens(src)),
{
    lemma_tokenize_well_formed(src, 0, Seq::empty(), Seq::empty());
}

// ----- What each token reads -------------------------------------------------

proof fn lemma_upper_name(s: Seq<char>)
    requires
        forall|k: int| 0 <= k < s.len() ==> ('A' <= #[trigger] s[k] && s[k] <= 'Z'),
    ensures
        ascii_upper(s) == s,
{
    assert(ascii_upper(s) =~= s);
}

/// Law: each token name reads the metadata field of that name. A `{NAME}`
/// token, written in any case, renders the value of the field called `NAME`
/// (a missing or empty value renders as the empty-field placeholder), and
/// `{FILENAME}` always renders the filename.
pub proof fn law_each_token_reads_its_own_field(meta: TrackMetadata)
    ensures
        field_value(field_named("ARTIST"@), meta) == opt_view(meta.artist),
        field_value(field_named("TITLE"@), meta) == opt_view(meta.title),
        field_value(field_named("ALBUM"@), meta) == opt_view(meta.album),
        field_value(field_named("ALBUMARTIST"@), meta) == opt_view(meta.album_artist),
        field_value(field_named("YEAR"@), meta) == opt_view(meta.year),
        field_value(field_named("TRACK"@), meta) == opt_view(meta.track),
        field_value(field_named("GENRE"@), meta) == opt_view(meta.genre),
        field_value(field_named("COMPOSER"@), meta) == opt_view(meta.composer),
        field_value(field_named("COMMENT"@), meta) == opt_view(meta.comment),
        field_value(field_named("FILENAME"@), meta) == Some(meta.filename@),
        field_value(field_named("PATH"@), meta) == opt_view(meta.path),
        forall|n: Seq<char>|
            #![trigger field_named(n)]
            ascii_upper(n) == "GENRE"@ ==> raw_text(seq![TokenModel::Field(field_named(n))], meta)
                == (match meta.genre {
                Some(g) => if g@.len() > 0 {
                    g@
                } else {
                    seq![EMPTY]
                },
                None => seq![EMPTY],
            }),
{
    reveal_strlit("ARTIST");
    reveal_strlit("TITLE");
    reveal_strlit("ALBUM");
    reveal_strlit("ALBUMARTIST");
    reveal_strlit("YEAR");
    reveal_strlit("TRACK");
    reveal_strlit("GENRE");
    reveal_strlit("COMPOSER");
    reveal_strlit("COMMENT");
    reveal_strlit("FILENAME");
    reveal_strlit("PATH");
    lemma_upper_name("ARTIST"@);
    lemma_upper_name("TITLE"@);
    lemma_upper_name("ALBUM"@);
    lemma_upper_name("ALBUMARTIST"@);
    lemma_upper_name("YEAR"@);
    lemma_upper_name("TRACK"@);
    lemma_upper_name("GENRE"@);
    lemma_upper_name("COMPOSER"@);
    lemma_upper_name("COMMENT"@);
    lemma_upper_name("FILENAME"@);
    lemma_upper_name("PATH"@);
    assert("TITLE"@[0] != "ALBUM"@[0] && "TITLE"@[1] != "TRACK"@[1] && "TITLE"@[0] != "GENRE"@[0]);
    assert("ALBUM"@[0] != "TRACK"@[0] && "ALBUM"@[0] != "GENRE"@[0] && "TRACK"@[0] != "GENRE"@[0]);
    assert("YEAR"@[0] != "PATH"@[0] && "COMPOSER"@[0] != "FILENAME"@[0]);
    assert("ALBUM"@ != "TITLE"@ && "TRACK"@ != "TITLE"@ && "GENRE"@ != "TITLE"@);
    assert("TRACK"@ != "ALBUM"@ && "GENRE"@ != "ALBUM"@ && "GENRE"@ != "TRACK"@);
    assert("PATH"@ != "YEAR"@ && "FILENAME"@ != "COMPOSER"@);
    assert forall|n: Seq<char>|
        #![trigger field_named(n)]
        ascii_upper(n) == "GENRE"@ implies raw_text(seq![TokenModel::Field(field_named(n))], meta)
            == (match meta.genre {
            Some(g) => if g@.len() > 0 {
                g@
            } else {
                seq![EMPTY]
            },
            None => seq![EMPTY],
        }) by {
        let toks = seq![TokenModel::Field(field_named(n))];
        assert(toks.drop_last() =~= Seq::<TokenModel>::empty());
        assert(raw_text(toks.drop_last(), meta) == Seq::<char>::empty());
        assert(raw_text(toks, meta) =~= piece_text(toks.last(), meta));
    }
}

// ----- Case of token names ---------------------------------------------------

/// Whether `n` is a valid token name: a letter followed by letters, digits
/// and underscores.
pub open spec fn is_token_name(n: Seq<char>) -> bool {
    n.len() > 0 && is_alpha(n[0]) && forall|k: int| 0 <= k < n.len() ==> is_name_char(#[trigger] n[k])
}

proof fn lemma_name_rest_end_at(s: Seq<char>, k: int, e: int)
    requires
        0 <= k <= e <= s.len(),
        forall|m: int| k <= m < e ==> is_name_char(#[trigger] s[m]),
        e == s.len() || !is_name_char(s[e]),
    ensures
        name_rest_end(s, k) == e,
    decreases e - k,
{
    if k < e {
        lemma_name_rest_end_at(s, k + 1, e);
    }
}

proof fn lemma_name_rest_end_same_suffix(s1: Seq<char>, s2: Seq<char>, k: int)
    requires
        s1.len() == s2.len(),
        0 <= k,
        forall|m: int| k <= m < s1.len() ==> s1[m] == s2[m],
    ensures
        name_rest_end(s1, k) == name_rest_end(s2, k),
    decreases s1.len() - k,
{
    if k < s1.len() {
        lemma_name_rest_end_same_suffix(s1, s2, k + 1);
    }
}

/// Tokenizing from `k` on looks at nothing before `k`.
proof fn lemma_tokenize_same_suffix(
    s1: Seq<char>,
    s2: Seq<char>,
    k: int,
    lit: Seq<char>,
    toks: Seq<TokenModel>,
)
    requires
        s1.len() == s2.len(),
        0 <= k,
        forall|m: int| k <= m < s1.len() ==> s1[m] == s2[m],
    ensures
        tokenize(s1, k, lit, toks) == tokenize(s2, k, lit, toks),
    decreases s1.len() - k,
{
    if k < s1.len() && s1[k] != '{' {
        lemma_tokenize_same_suffix(s1, s2, k + 1, lit.push(s1[k]), toks);
    } else if k < s1.len() {
        lemma_name_end_bounds(s1, k + 1);
        lemma_name_rest_end_same_suffix(s1, s2, k + 2);
        let e = name_end(s1, k + 1);
        assert(e == name_end(s2, k + 1));
        assert(s1.subrange(k + 1, e) =~= s2.subrange(k + 1, e));
        if opens_token(s1, k) {
            lemma_tokenize_same_suffix(
                s1,
                s2,
                e + 1,
                Seq::empty(),
                flush(toks, lit).push(TokenModel::Field(field_named(s1.subrange(k + 1, e)))),
            );
        } else {
            lemma_tokenize_same_suffix(s1, s2, e, lit.push('{') + s1.subrange(k + 1, e), toks);
        }
    }
}

proof fn lemma_upper_name_char(c: char)
    ensures
        is_alpha(c) ==> is_alpha(upper_char(c)),
        is_name_char(c) ==> is_name_char(upper_char(c)),
        upper_char(upper_char(c)) == upper_char(c),
{
}

/// The pieces of `a{n}b` and `a{N}b`, where `N` is `n` upper-cased, agree
/// from the position of the brace on.
proof fn lemma_tokenize_at_brace(
    a: Seq<char>,
    n: Seq<char>,
    b: Seq<char>,
    lit: Seq<char>,
    toks: Seq<TokenModel>,
)
    requires
        is_token_name(n),
    ensures
        tokenize(a + seq!['{'] + n + seq!['}'] + b, a.len() as int, lit, toks) == tokenize(
            a + seq!['{'] + ascii_upper(n) + seq!['}'] + b,
            a.len() as int,
            lit,
            toks,
        ),
{
    let u = ascii_upper(n);
    let s1 = a + seq!['{'] + n + seq!['}'] + b;
    let s2 = a + seq!['{'] + u + seq!['}'] + b;
    let p = a.len() as int;
    let e = p + 1 + n.len();
    assert(s1.len() == s2.len());
    assert(s1[p] == '{' && s2[p] == '{');
    assert(s1[e] == '}' && s2[e] == '}');
    assert forall|m: int| p + 1 <= m < e implies is_name_char(#[trigger] s1[m]) by {
        assert(s1[m] == n[m - p - 1]);
    }
    assert forall|m: int| p + 1 <= m < e implies is_name_char(#[trigger] s2[m]) by {
        assert(s2[m] == u[m - p - 1]);
        lemma_upper_name_char(n[m - p - 1]);
    }
    assert(s1[p + 1] == n[0]);
    assert(s2[p + 1] == u[0]);
    lemma_upper_name_char(n[0]);
    lemma_name_rest_end_at(s1, p + 2, e);
    lemma_name_rest_end_at(s2, p + 2, e);
    assert(name_end(s1, p + 1) == e);
    assert(name_end(s2, p + 1) == e);
    assert(s1.subrange(p + 1, e) =~= n);
    assert(s2.subrange(p + 1, e) =~= u);
    assert forall|m: int| 0 <= m < n.len() implies #[trigger] ascii_upper(u)[m] == ascii_upper(
        n,
    )[m] by {
        lemma_upper_name_char(n[m]);
    }
    assert(ascii_upper(u) =~= ascii_upper(n));
    assert(field_named(n) == field_named(u));
    assert forall|m: int| e + 1 <= m < s1.len() implies s1[m] == s2[m] by {
        assert(s1[m] == b[m - e - 1]);
        assert(s2[m] == b[m - e - 1]);
    }
    lemma_tokenize_same_suffix(
        s1,
        s2,
        e + 1,
        Seq::empty(),
        flush(toks, lit).push(TokenModel::Field(field_named(n))),
    );
}

/// Before the brace at `p`, both texts are the same, and no name read there
/// reaches past `p`.
proof fn lemma_name_rest_end_same_prefix(s1: Seq<char>, s2: Seq<char>, p: int, k: int)
    requires
        s1.len() == s2.len(),
        0 <= k <= p < s1.len(),
        s1[p] == '{',
        forall|m: int| 0 <= m <= p ==> s1[m] == s2[m],
    ensures
        name_rest_end(s1, k) == name_rest_end(s2, k),
        name_rest_end(s1, k) <= p,
    decreases p - k,
{
    if k < p {
        lemma_name_rest_end_same_prefix(s1, s2, p, k + 1);
    }
}

proof fn lemma_tokenize_same_prefix(
    a: Seq<char>,
    n: Seq<char>,
    b: Seq<char>,
    i: int,
    lit: Seq<char>,
    toks: Seq<TokenModel>,
)
    requires
        is_token_name(n),
        0 <= i <= a.len(),
    ensures
        tokenize(a + seq!['{'] + n + seq!['}'] + b, i, lit, toks) == tokenize(
            a + seq!['{'] + ascii_upper(n) + seq!['}'] + b,
            i,
            lit,
            toks,
        ),
    decreases a.len() - i,
{
    let s1 = a + seq!['{'] + n + seq!['}'] + b;
    let s2 = a + seq!['{'] + ascii_upper(n) + seq!['}'] + b;
    let p = a.len() as int;
    assert(s1.len() == s2.len());
    assert forall|m: int| 0 <= m <= p implies s1[m] == s2[m] by {
        if m < p {
            assert(s1[m] == a[m] && s2[m] == a[m]);
        }
    }
    if i == p {
        lemma_tokenize_at_brace(a, n, b, lit, toks);
    } else if s1[i] != '{' {
        lemma_tokenize_same_prefix(a, n, b, i + 1, lit.push(s1[i]), toks);
    } else {
        lemma_name_end_bounds(s1, i + 1);
        if i + 1 < p {
            lemma_name_rest_end_same_prefix(s1, s2, p, i + 2);
        }
        let e = name_end(s1, i + 1);
        assert(e == name_end(s2, i + 1));
        assert(e <= p);
        assert(s1.subrange(i + 1, e) =~= s2.subrange(i + 1, e));
        if opens_token(s1, i) {
            assert(e < p);
            lemma_tokenize_same_prefix(
                a,
                n,
                b,
                e + 1,
                Seq::empty(),
                flush(toks, lit).push(TokenModel::Field(field_named(s1.subrange(i + 1, e)))),
            );
        } else {
            lemma_tokenize_same_prefix(a, n, b, e, lit.push('{') + s1.subrange(i + 1, e), toks);
        }
    }
}

/// Law: token names are matched regardless of ASCII case. Two templates
/// that differ only in the case of one token's name have the same pieces.
pub proof fn law_token_names_ignore_case(a: Seq<char>, n1: Seq<char>, n2: Seq<char>, b: Seq<char>)
    requires
        is_token_name(n1),
        is_token_name(n2),
        ascii_upper(n1) == ascii_upper(n2),
    ensures
        template_tokens(a + seq!['{'] + n1 + seq!['}'] + b) == template_tokens(
            a + seq!['{'] + n2 + seq!['}'] + b,
        ),
{
    lemma_tokenize_same_prefix(a, n1, b, 0, Seq::empty(), Seq::empty());
    lemma_tokenize_same_prefix(a, n2, b, 0, Seq::empty(), Seq::empty());
}

// ----- The pieces as occurrences of tokens ----------------------------------

/// Whether a valid `{NAME}` token starts at `i`.
pub open spec fn is_occurrence(s: Seq<char>, i: int) -> bool {
    0 <= i < s.len() && s[i] == '{' && opens_token(s, i)
}

/// The first token occurrence at or after `k`; `s.len()` when there is none.
pub open spec fn next_occurrence(s: Seq<char>, k: int) -> int
    decreases s.len() - k,
{
    if k < 0 || k >= s.len() {
        s.len() as int
    } else if is_occurrence(s, k) {
        k
    } else {
        next_occurrence(s, k + 1)
    }
}

pub proof fn lemma_next_occurrence_bounds(s: Seq<char>, k: int)
    requires
        0 <= k <= s.len(),
    ensures
        k <= next_occurrence(s, k) <= s.len(),
        next_occurrence(s, k) < s.len() ==> is_occurrence(s, next_occurrence(s, k)),
    decreases s.len() - k,
{
    if k < s.len() && !is_occurrence(s, k) {
        lemma_next_occurrence_bounds(s, k + 1);
    }
}

/// The pieces of `s` read from `j` on, occurrence by occurrence: the text
/// before the next token occurrence as a literal (when not empty), then the
/// field the token names, then the rest after its closing brace.
pub open spec fn pieces_from(s: Seq<char>, j: int) -> Seq<TokenModel>
    decreases s.len() - j,
{
    if j < 0 || j > s.len() {
        Seq::empty()
    } else {
        let o = next_occurrence(s, j);
        proof {
            lemma_next_occurrence_bounds(s, j);
        }
        if o >= s.len() {
            flush(Seq::empty(), s.subrange(j, s.len() as int))
        } else {
            let e = name_end(s, o + 1);
            proof {
                lemma_name_end_bounds(s, o + 1);
            }
            flush(Seq::empty(), s.subrange(j, o)).push(
                TokenModel::Field(field_named(s.subrange(o + 1, e))),
            ) + pieces_from(s, e + 1)
        }
    }
}

proof fn lemma_name_rest_chars(s: Seq<char>, k: int)
    requires
        0 <= k <= s.len(),
    ensures
        forall|m: int| k <= m < name_rest_end(s, k) ==> is_name_char(#[trigger] s[m]),
    decreases s.len() - k,
{
    if k < s.len() && is_name_char(s[k]) {
        lemma_name_rest_chars(s, k + 1);
    }
}

proof fn lemma_next_occurrence_skip(s: Seq<char>, k: int, m: int)
    requires
        0 <= k <= m <= s.len(),
        forall|x: int| k <= x < m ==> !is_occurrence(s, x),
    ensures
        next_occurrence(s, k) == next_occurrence(s, m),
    decreases m - k,
{
    if k < m {
        lemma_next_occurrence_skip(s, k + 1, m);
    }
}

proof fn lemma_flush_append(toks: Seq<TokenModel>, lit: Seq<char>)
    ensures
        flush(toks, lit) == toks + flush(Seq::empty(), lit),
{
    assert(flush(toks, lit) =~= toks + flush(Seq::empty(), lit));
}

proof fn lemma_tokenize_pieces(s: Seq<char>, j: int, i: int, toks: Seq<TokenModel>)
    requires
        0 <= j <= i <= s.len(),
        next_occurrence(s, j) == next_occurrence(s, i),
    ensures
        tokenize(s, i, s.subrange(j, i), toks) == toks + pieces_from(s, j),
    decreases s.len() - i,
{
    lemma_next_occurrence_bounds(s, i);
    if i == s.len() {
        lemma_flush_append(toks, s.subrange(j, i));
    } else if s[i] != '{' {
        lemma_next_occurrence_skip(s, i, i + 1);
        assert(s.subrange(j, i).push(s[i]) =~= s.subrange(j, i + 1));
        lemma_tokenize_pieces(s, j, i + 1, toks);
    } else {
        lemma_name_end_bounds(s, i + 1);
        let e = name_end(s, i + 1);
        if opens_token(s, i) {
            assert(next_occurrence(s, i) == i);
            let f = TokenModel::Field(field_named(s.subrange(i + 1, e)));
            let t2 = flush(toks, s.subrange(j, i)).push(f);
            assert(s.subrange(e + 1, e + 1) =~= Seq::<char>::empty());
            lemma_tokenize_pieces(s, e + 1, e + 1, t2);
            lemma_flush_append(toks, s.subrange(j, i));
            assert(t2 + pieces_from(s, e + 1) =~= toks + (flush(Seq::empty(), s.subrange(j, i)).push(
                f,
            ) + pieces_from(s, e + 1)));
        } else {
            if i + 1 < s.len() && is_alpha(s[i + 1]) {
                lemma_name_rest_chars(s, i + 2);
            }
            assert forall|x: int| i <= x < e implies !is_occurrence(s, x) by {
                if x > i {
                    assert(is_name_char(s[x]));
                }
            }
            lemma_next_occurrence_skip(s, i, e);
            assert(s.subrange(j, i).push('{') + s.subrange(i + 1, e) =~= s.subrange(j, e));
            lemma_tokenize_pieces(s, j, e, toks);
        }
    }
}

/// Law: the pieces of a template are its token occurrences, in order. Each
/// valid `{NAME}` (a letter, then letters, digits and underscores) found
/// scanning from the left becomes the field it names, and the text between
/// occurrences becomes a literal, verbatim, when it is not empty.
pub proof fn law_pieces_are_the_occurrences(src: Seq<char>)
    ensures
        template_tokens(src) == pieces_from(src, 0),
{
    assert(src.subrange(0, 0) =~= Seq::<char>::empty());
    lemma_tokenize_pieces(src, 0, 0, Seq::empty());
    assert(Seq::<TokenModel>::empty() + pieces_from(src, 0) =~= pieces_from(src, 0));
}

proof fn lemma_run_has_empty(s: Seq<char>, i: int, j: int)
    requires
        0 <= i <= j <= s.len(),
        !run_has_empty(s, i, j),
    ensures
        forall|k: int| i <= k < j ==> s[k] != EMPTY,
    decreases j - i,
{
    if j > i {
        lemma_run_has_empty(s, i, j - 1);
    }
}

proof fn lemma_run_first_mark(s: Seq<char>, i: int, j: int)
    ensures
        run_first_mark(s, i, j) matches Some(m) ==> m != EMPTY && m != ' ',
    decreases j - i,
{
    if j > i {
        lemma_run_first_mark(s, i, j - 1);
    }
}

proof fn lemma_clean_from(s: Seq<char>, i: int)
    requires
        0 <= i <= s.len(),
    ensures
        forall|k: int| 0 <= k < clean_from(s, i).len() ==> #[trigger] clean_from(s, i)[k] != EMPTY,
        clean_from(s, i).len() > 0 ==> !is_sep_or_empty_spec(clean_from(s, i).last()),
        i < s.len() && !is_sep_or_empty_spec(s[i]) ==> clean_from(s, i).len() > 0
            && clean_from(s, i)[0] == s[i],
    decreases s.len() - i,
{
    if i < s.len() {
        if !is_sep_or_empty_spec(s[i]) {
            lemma_clean_from(s, i + 1);
            let r = clean_from(s, i + 1);
            assert(clean_from(s, i) == seq![s[i]] + r);
            assert forall|k: int| 0 <= k < clean_from(s, i).len() implies #[trigger] clean_from(
                s,
                i,
            )[k] != EMPTY by {
                if k > 0 {
                    assert(clean_from(s, i)[k] == r[k - 1]);
                }
            }
        } else {
            lemma_run_end_bounds(s, i);
            lemma_run_end_bounds(s, i + 1);
            let j = run_end(s, i);
            if j < s.len() {
                lemma_clean_from(s, j);
                let rep = run_replacement(s, i, j);
                let r = clean_from(s, j);
                assert(clean_from(s, i) == rep + r);
                lemma_run_first_mark(s, i, j);
                if !run_has_empty(s, i, j) {
                    lemma_run_has_empty(s, i, j);
                }
                assert forall|k: int| 0 <= k < clean_from(s, i).len() implies #[trigger] clean_from(
                    s,
                    i,
                )[k] != EMPTY by {
                    if k < rep.len() {
                        assert(clean_from(s, i)[k] == rep[k]);
                        if !run_has_empty(s, i, j) {
                            assert(rep[k] == s[i + k]);
                        }
                    } else {
                        assert(clean_from(s, i)[k] == r[k - rep.len()]);
                    }
                }
                assert(clean_from(s, i).last() == r.last());
            }
        }
    }
}

/// Law: cleanup never leaves a placeholder behind, and the cleaned text
/// neither begins nor ends with a separator.
pub proof fn law_cleaned_has_no_stray_separators(s: Seq<char>)
    ensures
        forall|k: int| 0 <= k < cleaned(s).len() ==> #[trigger] cleaned(s)[k] != EMPTY,
        cleaned(s).len() > 0 ==> !is_sep_or_empty_spec(cleaned(s)[0]) && !is_sep_or_empty_spec(
            cleaned(s).last(),
        ),
{
    lemma_run_end_bounds(s, 0);
    let i = run_end(s, 0);
    if i < s.len() {
        lemma_clean_from(s, i);
    }
}

proof fn lemma_run_without_empty(t: Seq<char>, i: int, j: int)
    requires
        0 <= i <= j <= t.len(),
        forall|k: int| 0 <= k < t.len() ==> #[trigger] t[k] != EMPTY,
    ensures
        !run_has_empty(t, i, j),
    decreases j - i,
{
    if j > i {
        lemma_run_without_empty(t, i, j - 1);
    }
}

/// Cleaning text with no placeholder that does not end in a separator
/// changes nothing from `i` on.
proof fn lemma_clean_from_unchanged(t: Seq<char>, i: int)
    requires
        0 <= i <= t.len(),
        forall|k: int| 0 <= k < t.len() ==> #[trigger] t[k] != EMPTY,
        t.len() > 0 ==> !is_sep_or_empty_spec(t.last()),
    ensures
        clean_from(t, i) == t.subrange(i, t.len() as int),
    decreases t.len() - i,
{
    if i == t.len() {
        assert(t.subrange(i, t.len() as int) =~= Seq::<char>::empty());
    } else if !is_sep_or_empty_spec(t[i]) {
        lemma_clean_from_unchanged(t, i + 1);
        assert(seq![t[i]] + t.subrange(i + 1, t.len() as int) =~= t.subrange(i, t.len() as int));
    } else {
        lemma_run_end_bounds(t, i);
        lemma_run_end_bounds(t, i + 1);
        let j = run_end(t, i);
        if j >= t.len() {
            assert(is_sep_or_empty_spec(t[t.len() - 1]));
        }
        lemma_run_without_empty(t, i, j);
        lemma_clean_from_unchanged(t, j);
        assert(t.subrange(i, j) + t.subrange(j, t.len() as int) =~= t.subrange(i, t.len() as int));
    }
}

/// Law: cleaning is idempotent: cleaning a cleaned text gives it back.
pub proof fn law_cleaning_is_idempotent(s: Seq<char>)
    ensures
        cleaned(cleaned(s)) == cleaned(s),
{
    law_cleaned_has_no_stray_separators(s);
    let t = cleaned(s);
    if t.len() > 0 {
        assert(run_end(t, 0) == 0);
        lemma_clean_from_unchanged(t, 0);
        assert(t.subrange(0, t.len() as int) =~= t);
    }
}

// ----- Cleaning around one interior run -------------------------------------

proof fn lemma_run_shift(s: Seq<char>, t: Seq<char>, d: int, i: int, j: int)
    requires
        0 <= i <= j <= s.len(),
        0 <= i + d,
        j + d <= t.len(),
        forall|k: int| i <= k < j ==> s[k] == #[trigger] t[k + d],
    ensures
        run_has_empty(s, i, j) == run_has_empty(t, i + d, j + d),
        run_first_mark(s, i, j) == run_first_mark(t, i + d, j + d),
        run_replacement(s, i, j) == run_replacement(t, i + d, j + d),
    decreases j - i,
{
    if j > i {
        lemma_run_shift(s, t, d, i, j - 1);
        assert(s[j - 1] == t[j - 1 + d]);
    }
    assert(s.subrange(i, j) =~= t.subrange(i + d, j + d)) by {
        assert forall|k: int| 0 <= k < j - i implies s.subrange(i, j)[k] == t.subrange(i + d, j + d)[k] by {
            assert(s[i + k] == t[i + k + d]);
        }
    }
}

proof fn lemma_run_end_suffix(z: Seq<char>, t: Seq<char>, d: int, k: int)
    requires
        0 <= d,
        t.len() == z.len() + d,
        0 <= k <= z.len(),
        forall|m: int| 0 <= m < z.len() ==> z[m] == #[trigger] t[m + d],
    ensures
        run_end(t, k + d) == run_end(z, k) + d,
    decreases z.len() - k,
{
    if k < z.len() {
        assert(z[k] == t[k + d]);
        if is_sep_or_empty_spec(z[k]) {
            lemma_run_end_suffix(z, t, d, k + 1);
        }
    }
}

proof fn lemma_run_end_prefix(x: Seq<char>, t: Seq<char>, i: int)
    requires
        0 < x.len() <= t.len(),
        !is_sep_or_empty_spec(x.last()),
        forall|m: int| 0 <= m < x.len() ==> x[m] == #[trigger] t[m],
        0 <= i < x.len(),
    ensures
        run_end(t, i) == run_end(x, i),
        run_end(x, i) < x.len(),
    decreases x.len() - i,
{
    assert(x[i] == t[i]);
    if is_sep_or_empty_spec(x[i]) {
        assert(i + 1 < x.len());
        lemma_run_end_prefix(x, t, i + 1);
    }
}

/// Cleaning from inside `z`, placed at offset `d` in `t`, is cleaning `z`.
proof fn lemma_clean_suffix(z: Seq<char>, t: Seq<char>, d: int, k: int)
    requires
        0 <= d,
        t.len() == z.len() + d,
        0 <= k <= z.len(),
        forall|m: int| 0 <= m < z.len() ==> z[m] == #[trigger] t[m + d],
    ensures
        clean_from(t, k + d) == clean_from(z, k),
    decreases z.len() - k,
{
    if k < z.len() {
        assert(z[k] == t[k + d]);
        if !is_sep_or_empty_spec(z[k]) {
            lemma_clean_suffix(z, t, d, k + 1);
        } else {
            lemma_run_end_bounds(z, k);
            lemma_run_end_bounds(z, k + 1);
            lemma_run_end_suffix(z, t, d, k);
            let j = run_end(z, k);
            if j < z.len() {
                lemma_run_shift(z, t, d, k, j);
                lemma_clean_suffix(z, t, d, j);
            }
        }
    }
}

/// Cleaning `t` from inside its prefix `x`, which does not end in a
/// separator, cleans `x` and then goes on from the end of `x`.
proof fn lemma_clean_prefix(x: Seq<char>, t: Seq<char>, i: int)
    requires
        0 < x.len() <= t.len(),
        !is_sep_or_empty_spec(x.last()),
        forall|m: int| 0 <= m < x.len() ==> x[m] == #[trigger] t[m],
        0 <= i <= x.len(),
    ensures
        clean_from(t, i) == clean_from(x, i) + clean_from(t, x.len() as int),
    decreases x.len() - i,
{
    if i == x.len() {
        assert(clean_from(x, i) =~= Seq::<char>::empty());
        assert(clean_from(t, i) =~= Seq::<char>::empty() + clean_from(t, i));
    } else {
        assert(x[i] == t[i]);
        if !is_sep_or_empty_spec(x[i]) {
            lemma_clean_prefix(x, t, i + 1);
            assert(seq![t[i]] + clean_from(t, i + 1) =~= seq![x[i]] + clean_from(x, i + 1)
                + clean_from(t, x.len() as int));
        } else {
            lemma_run_end_bounds(x, i);
            lemma_run_end_bounds(x, i + 1);
            lemma_run_end_prefix(x, t, i);
            let j = run_end(x, i);
            lemma_run_shift(x, t, 0, i, j);
            lemma_clean_prefix(x, t, j);
            assert(run_replacement(x, i, j) + clean_from(t, j) =~= run_replacement(x, i, j)
                + clean_from(x, j) + clean_from(t, x.len() as int));
        }
    }
}

proof fn lemma_run_all_blank(r: Seq<char>, j: int, e: int)
    requires
        0 <= j <= r.len(),
        0 <= e < j,
        r[e] == EMPTY,
    ensures
        run_has_empty(r, 0, j),
    decreases j,
{
    if j - 1 > e {
        lemma_run_all_blank(r, j - 1, e);
    }
}

/// Law: cleaning text made of two parts joined by one run of separators
/// holding an empty field cleans each part and puts in the run's place one
/// separator: ` c ` for the run's first mark `c` other than a blank, else a
/// single space.
pub proof fn law_clean_around_interior_run(x: Seq<char>, r: Seq<char>, y: Seq<char>, e: int)
    requires
        x.len() > 0,
        y.len() > 0,
        !is_sep_or_empty_spec(x.last()),
        !is_sep_or_empty_spec(y[0]),
        forall|k: int| 0 <= k < r.len() ==> is_sep_or_empty_spec(#[trigger] r[k]),
        0 <= e < r.len(),
        r[e] == EMPTY,
    ensures
        cleaned(x + r + y) == cleaned(x) + (match run_first_mark(r, 0, r.len() as int) {
            Some(c) => seq![' ', c, ' '],
            None => seq![' '],
        }) + cleaned(y),
{
    let s = x + r + y;
    let p = x.len() as int;
    let q = p + r.len();
    assert forall|m: int| 0 <= m < x.len() implies x[m] == #[trigger] s[m] by {}
    assert forall|m: int| 0 <= m < r.len() implies r[m] == #[trigger] s[m + p] by {}
    assert forall|m: int| 0 <= m < y.len() implies y[m] == #[trigger] s[m + q] by {}
    lemma_run_end_bounds(x, 0);
    lemma_run_end_prefix(x, s, 0);
    let i0 = run_end(x, 0);
    lemma_clean_prefix(x, s, i0);
    // The run between the parts.
    lemma_run_end_suffix(y, s, q, 0);
    lemma_run_end_bounds(y, 0);
    assert(run_end(y, 0) == 0);
    assert forall|k: int| p <= k < q implies is_sep_or_empty_spec(#[trigger] s[k]) by {
        assert(s[k] == r[k - p]);
    }
    lemma_run_all_blank_end(s, p, q);
    lemma_run_shift(r, s, p, 0, r.len() as int);
    lemma_run_all_blank(r, r.len() as int, e);
    lemma_clean_suffix(y, s, q, 0);
    assert(clean_from(s, p) == run_replacement(s, p, q) + clean_from(s, q));
}

/// A run of separators ending right before a character that is not one.
proof fn lemma_run_all_blank_end(s: Seq<char>, k: int, q: int)
    requires
        0 <= k < q < s.len(),
        forall|m: int| k <= m < q ==> is_sep_or_empty_spec(#[trigger] s[m]),
        !is_sep_or_empty_spec(s[q]),
    ensures
        run_end(s, k) == q,
    decreases q - k,
{
    assert(is_sep_or_empty_spec(s[k]));
    assert(run_end(s, k) == run_end(s, k + 1));
    if k + 1 < q {
        lemma_run_all_blank_end(s, k + 1, q);
    } else {
        assert(run_end(s, q) == q);
    }
}

proof fn lemma_all_blank_run_end(s: Seq<char>, j: int)
    requires
        0 <= j <= s.len(),
        forall|k: int| 0 <= k < s.len() ==> is_sep_or_empty_spec(#[trigger] s[k]),
    ensures
        run_end(s, j) == s.len(),
    decreases s.len() - j,
{
    if j < s.len() {
        lemma_all_blank_run_end(s, j + 1);
    }
}

/// Law: when every character the template produces is a separator or a
/// missing field (every token resolved empty and the literals are only
/// separators), the label is the filename.
pub proof fn law_all_blank_falls_back_to_filename(toks: Seq<TokenModel>, meta: TrackMetadata)
    requires
        forall|k: int|
            0 <= k < raw_text(toks, meta).len() ==> is_sep_or_empty_spec(
                #[trigger] raw_text(toks, meta)[k],
            ),
    ensures
        rendered(toks, meta) == meta.filename@,
{
    lemma_all_blank_run_end(raw_text(toks, meta), 0);
}

/// Law: a rendered label is never empty when the filename is not: it is the
/// cleaned text, or the filename when cleaning leaves nothing.
pub proof fn law_render_never_empty(toks: Seq<TokenModel>, meta: TrackMetadata)
    requires
        meta.filename@.len() > 0,
    ensures
        rendered(toks, meta).len() > 0,
        rendered(toks, meta) == meta.filename@ || rendered(toks, meta) == cleaned(
            raw_text(toks, meta),
        ),
{
}

} // verus!
