//! Text search over all rows of the grid.

use crate::grid::Grid;
use crate::grid::{GridView, ScreenView};
use crate::readout;
use crate::text;
use vstd::prelude::*;

verus! {

/// `regex::Regex`, a compiled regular expression.
#[verifier::external_type_specification]
#[verifier::external_body]
pub struct ExRegex(regex::Regex);

/// The pattern that a regular expression was compiled from, and whether it ignores case.
pub uninterp spec fn regex_source(re: regex::Regex) -> (Seq<char>, bool);

/// The pattern compiles, with or without regard to case.
pub uninterp spec fn regex_valid(pattern: Seq<char>, ignore_case: bool) -> bool;

/// The matches of a pattern in a text: start and end in bytes, in order.
pub uninterp spec fn regex_matches(pattern: Seq<char>, ignore_case: bool, text: Seq<char>) -> Seq<
    (usize, usize),
>;

/// `regex::RegexBuilder` with `case_insensitive`, then `build`. Whether it succeeds goes by the
/// name `regex_valid`; the expression remembers what it was compiled from.
#[verifier::external_body]
fn compile(pattern: &str, ignore_case: bool) -> (r: Option<regex::Regex>)
    ensures
        r.is_some() == regex_valid(pattern@, ignore_case),
        r matches Some(re) ==> regex_source(re) == (pattern@, ignore_case),
{
    regex::RegexBuilder::new(pattern).case_insensitive(ignore_case).build().ok()
}

/// The pattern `\b(?:…)\b`: an expression between two word boundaries.
pub open spec fn between_edges(pattern: Seq<char>) -> bool {
    pattern.len() >= 8 && pattern == seq!['\\', 'b', '(', '?', ':'] + between(pattern) + seq![
        ')',
        '\\',
        'b',
    ]
}

/// The expression that such a pattern holds.
pub open spec fn between(pattern: Seq<char>) -> Seq<char> {
    pattern.subrange(5, pattern.len() - 3)
}

/// An ASCII character that is part of a word: a letter, a digit or the underscore.
pub open spec fn word_char(c: char) -> bool {
    alphanumeric(c) || c == '_'
}

/// There is no character at this position, or an ASCII character that is part of no word.
pub open spec fn no_word_at(text: Seq<char>, i: int) -> bool {
    i < 0 || i >= text.len() || (text[i] as u32) < 128 && !word_char(text[i])
}

/// There is an ASCII character at this position that is part of a word.
pub open spec fn in_word(text: Seq<char>, i: int) -> bool {
    0 <= i < text.len() && word_char(text[i])
}

/// The place before character `i` may be a word boundary: the characters on its two sides are not
/// both part of a word, nor both part of none. Characters beyond ASCII are left open.
pub open spec fn word_edge(text: Seq<char>, i: int) -> bool {
    !(in_word(text, i - 1) && in_word(text, i)) && !(no_word_at(text, i - 1) && no_word_at(text, i))
}

/// A match ends no earlier than it starts, and one of an expression between word boundaries starts
/// and ends at one.
pub open spec fn keeps_edges(
    pattern: Seq<char>,
    ignore_case: bool,
    text: Seq<char>,
    m: (usize, usize),
) -> bool {
    &&& m.0 <= m.1
    &&& between_edges(pattern) && regex_valid(between(pattern), ignore_case) ==> word_edge(
        text,
        column_at(text, m.0 as int),
    ) && word_edge(text, column_at(text, m.1 as int))
}

/// A word of ASCII letters and digits between word boundaries, with regard to case, matches where
/// the word stands and nothing else, and wherever it stands with no word right before or after it.
pub open spec fn finds_words(
    pattern: Seq<char>,
    ignore_case: bool,
    text: Seq<char>,
    found: Seq<(usize, usize)>,
) -> bool {
    let word = between(pattern);
    between_edges(pattern) && !ignore_case && word.len() > 0 && (forall|i: int|
        0 <= i < word.len() ==> alphanumeric(#[trigger] word[i])) ==> {
        &&& forall|k: int|
            0 <= k < found.len() ==> text::word_at(
                text,
                word,
                column_at(text, (#[trigger] found[k]).0 as int),
            ) && column_at(text, found[k].1 as int) == column_at(text, found[k].0 as int)
                + word.len()
        &&& forall|i: int|
            #[trigger] text::word_at(text, word, i) && no_word_at(text, i - 1) && no_word_at(
                text,
                i + word.len(),
            ) ==> exists|k: int|
                0 <= k < found.len() && column_at(text, (#[trigger] found[k]).0 as int) == i
    }
}

/// `regex::Regex::find_iter`, each match as its start and its end in bytes. The matches go by
/// the name `regex_matches`. Of an expression between two `\b`, each match starts and ends at a
/// word boundary, which has a character of `\w` on one side only; a word of ASCII letters and
/// digits between them is found where it stands and no word goes on before or behind it.
#[verifier::external_body]
fn find_all(re: &regex::Regex, text: &str) -> (r: Vec<(usize, usize)>)
    ensures
        r@ == regex_matches(regex_source(*re).0, regex_source(*re).1, text@),
        forall|k: int|
            0 <= k < r@.len() ==> keeps_edges(
                regex_source(*re).0,
                regex_source(*re).1,
                text@,
                #[trigger] r@[k],
            ),
        finds_words(regex_source(*re).0, regex_source(*re).1, text@, r@),
{
    re.find_iter(text).map(|m| (m.start(), m.end())).collect()
}

/// An ASCII letter or digit.
pub open spec fn alphanumeric(c: char) -> bool {
    '0' <= c <= '9' || 'A' <= c <= 'Z' || 'a' <= c <= 'z'
}

/// What a character is compared as: itself, or its lower case.
pub open spec fn folded(c: char, case_sensitive: bool) -> Seq<char> {
    if case_sensitive {
        seq![c]
    } else {
        text::lower_char(c)
    }
}

/// What the characters of a text are compared as, one by one.
pub open spec fn folded_cells(s: Seq<char>, case_sensitive: bool) -> Seq<Seq<char>> {
    s.map_values(|c: char| folded(c, case_sensitive))
}

/// The pieces put together.
pub open spec fn flat(pieces: Seq<Seq<char>>) -> Seq<char>
    decreases pieces.len(),
{
    if pieces.len() == 0 {
        Seq::empty()
    } else {
        pieces[0] + flat(pieces.skip(1))
    }
}

/// The capital sigma, the one letter whose lower case depends on the letters around it.
pub open spec fn capital_sigma() -> char {
    '\u{3a3}'
}

/// What a text is compared as: itself, or its lower case. Where no capital sigma occurs, that is
/// the lower case of its characters, one after the other.
pub open spec fn compared(s: Seq<char>, case_sensitive: bool) -> Seq<char> {
    if !case_sensitive && s.contains(capital_sigma()) {
        text::lowered(s)
    } else {
        flat(folded_cells(s, case_sensitive))
    }
}

/// How many characters each piece has.
pub open spec fn lengths(pieces: Seq<Seq<char>>) -> Seq<int> {
    pieces.map_values(|p: Seq<char>| p.len() as int)
}

/// The piece that a position falls into, given the lengths of the pieces; the last one where the
/// position lies behind them.
pub open spec fn piece_at(lens: Seq<int>, pos: int) -> int
    decreases lens.len(),
{
    if lens.len() <= 1 || pos < lens[0] {
        0
    } else {
        1 + piece_at(lens.skip(1), pos - lens[0])
    }
}

/// The column and the number of columns that `n` characters of what is compared stand for, from
/// position `at` on.
pub open spec fn span(lens: Seq<int>, at: int, n: int) -> (usize, usize) {
    let (first, last) = (piece_at(lens, at), piece_at(lens, at + n - 1));
    (first as usize, (crate::blocks::monus(last, first) + 1) as usize)
}

/// The characters `at..at + n` have no ASCII letter or digit right before or after them.
pub open spec fn stands_alone(hay: Seq<char>, at: int, n: int) -> bool {
    &&& at == 0 || !alphanumeric(hay[at - 1])
    &&& at + n >= hay.len() || !alphanumeric(hay[at + n])
}

/// `needle` stands in `hay` at a position, as a word of its own where that is asked for.
pub open spec fn hit(hay: Seq<char>, needle: Seq<char>, whole_word: bool, at: int) -> bool {
    &&& needle.len() > 0
    &&& text::word_at(hay, needle, at)
    &&& whole_word ==> stands_alone(hay, at, needle.len() as int)
}

/// The hits in what a line is compared as, from position `at` on and in order, by the columns
/// they stand for.
pub open spec fn hits_from(
    hay: Seq<char>,
    needle: Seq<char>,
    lens: Seq<int>,
    whole_word: bool,
    at: int,
) -> Seq<(usize, usize)>
    decreases hay.len() - at,
{
    if at < 0 || at >= hay.len() {
        Seq::empty()
    } else {
        let rest = hits_from(hay, needle, lens, whole_word, at + 1);
        if hit(hay, needle, whole_word, at) {
            seq![span(lens, at, needle.len() as int)] + rest
        } else {
            rest
        }
    }
}

/// Where the query stands in a line, in order: column and length.
pub open spec fn hits(
    line: Seq<char>,
    query: Seq<char>,
    case_sensitive: bool,
    whole_word: bool,
) -> Seq<(usize, usize)> {
    hits_from(
        compared(line, case_sensitive),
        compared(query, case_sensitive),
        lengths(folded_cells(line, case_sensitive)),
        whole_word,
        0,
    )
}

/// How many bytes a character takes in UTF-8.
pub open spec fn width_in_bytes(c: char) -> int {
    if (c as u32) < 0x80 {
        1
    } else if (c as u32) < 0x800 {
        2
    } else if (c as u32) < 0x1_0000 {
        3
    } else {
        4
    }
}

/// The column of the character that starts at a byte of a line.
pub open spec fn column_at(line: Seq<char>, byte: int) -> int
    decreases line.len(),
{
    if line.len() == 0 || byte <= 0 {
        0
    } else {
        1 + column_at(line.skip(1), byte - width_in_bytes(line[0]))
    }
}

/// A match given by its first byte and the byte behind it, as column and length.
pub open spec fn in_columns(line: Seq<char>, m: (usize, usize)) -> (usize, usize) {
    let (from, to) = (column_at(line, m.0 as int), column_at(line, m.1 as int));
    (from as usize, crate::blocks::monus(to, from) as usize)
}

/// The pattern of a regular-expression search.
pub open spec fn search_pattern(query: Seq<char>, whole_word: bool) -> Seq<char> {
    if whole_word {
        seq!['\\', 'b', '(', '?', ':'] + query + seq![')', '\\', 'b']
    } else {
        query
    }
}

/// Matches of a line with the row put before each.
pub open spec fn in_row(row: int, found: Seq<(usize, usize)>) -> Seq<(usize, usize, usize)> {
    found.map_values(|m: (usize, usize)| (row as usize, m.0, m.1))
}

/// What is known of the matches of a pattern in a text.
pub open spec fn told(pattern: Seq<char>, ignore_case: bool, text: Seq<char>) -> bool {
    let found = regex_matches(pattern, ignore_case, text);
    &&& forall|k: int|
        0 <= k < found.len() ==> keeps_edges(pattern, ignore_case, text, #[trigger] found[k])
    &&& finds_words(pattern, ignore_case, text, found)
}

impl ScreenView {
    /// What is known of the matches of a pattern in every row.
    pub open spec fn told_of_rows(self, pattern: Seq<char>, ignore_case: bool) -> bool {
        forall|abs: int|
            0 <= abs < self.total() ==> told(pattern, ignore_case, #[trigger] self.row_chars(abs))
    }

    /// The characters of an absolute row, one for each column.
    pub open spec fn row_chars(self, abs: int) -> Seq<char> {
        readout::chars_of(self.line(abs).unwrap())
    }

    /// The hits of a plain search in the rows from `abs` on.
    pub open spec fn plain_hits(
        self,
        abs: int,
        query: Seq<char>,
        case_sensitive: bool,
        whole_word: bool,
    ) -> Seq<(usize, usize, usize)>
        decreases self.total() - abs,
    {
        if abs < 0 || abs >= self.total() {
            Seq::empty()
        } else {
            in_row(abs, hits(self.row_chars(abs), query, case_sensitive, whole_word))
                + self.plain_hits(abs + 1, query, case_sensitive, whole_word)
        }
    }

    /// The matches of a regular expression in the rows from `abs` on.
    pub open spec fn regex_hits(self, abs: int, pattern: Seq<char>, ignore_case: bool) -> Seq<
        (usize, usize, usize),
    >
        decreases self.total() - abs,
    {
        if abs < 0 || abs >= self.total() {
            Seq::empty()
        } else {
            let line = self.row_chars(abs);
            in_row(
                abs,
                regex_matches(pattern, ignore_case, line).map_values(
                    |m: (usize, usize)| in_columns(line, m),
                ),
            ) + self.regex_hits(abs + 1, pattern, ignore_case)
        }
    }

    /// What a search finds: row, start column and length in columns.
    pub open spec fn found(
        self,
        query: Seq<char>,
        case_sensitive: bool,
        whole_word: bool,
        use_regex: bool,
    ) -> Seq<(usize, usize, usize)> {
        if query.len() == 0 {
            Seq::empty()
        } else if use_regex {
            let pattern = search_pattern(query, whole_word);
            if regex_valid(pattern, !case_sensitive) {
                self.regex_hits(0, pattern, !case_sensitive)
            } else {
                Seq::empty()
            }
        } else {
            self.plain_hits(0, query, case_sensitive, whole_word)
        }
    }
}

fn is_alphanumeric(c: char) -> (r: bool)
    ensures
        r == alphanumeric(c),
{
    ('0' <= c && c <= '9') || ('A' <= c && c <= 'Z') || ('a' <= c && c <= 'z')
}

/// What the pieces hold.
pub open spec fn piece_views(v: Seq<Vec<char>>) -> Seq<Seq<char>> {
    v.map_values(|p: Vec<char>| p@)
}

/// What the characters of a text are compared as.
fn fold_cells(s: &[char], case_sensitive: bool) -> (r: Vec<Vec<char>>)
    ensures
        piece_views(r@) == folded_cells(s@, case_sensitive),
{
    let mut out: Vec<Vec<char>> = Vec::new();
    let mut i: usize = 0;
    let ghost want = folded_cells(s@, case_sensitive);
    assert(piece_views(out@) =~= want.take(0));
    while i < s.len()
        invariant
            i <= s@.len(),
            want == folded_cells(s@, case_sensitive),
            piece_views(out@) == want.take(i as int),
        decreases s@.len() - i,
    {
        let ghost before = piece_views(out@);
        let piece: Vec<char> = if case_sensitive {
            let mut one: Vec<char> = Vec::new();
            one.push(s[i]);
            assert(one@ =~= seq![s@[i as int]]);
            one
        } else {
            text::lower(s[i])
        };
        let ghost view = piece@;
        out.push(piece);
        assert(piece_views(out@) =~= before.push(view));
        i = i + 1;
        assert(piece_views(out@) =~= want.take(i as int));
    }
    assert(want.take(i as int) =~= want);
    out
}

/// The pieces put together.
fn flatten(pieces: &Vec<Vec<char>>) -> (r: Vec<char>)
    ensures
        r@ == flat(piece_views(pieces@)),
{
    let ghost all = piece_views(pieces@);
    let mut out: Vec<char> = Vec::new();
    let mut i: usize = 0;
    assert(all.skip(0) =~= all);
    assert(out@ + flat(all) =~= flat(all));
    while i < pieces.len()
        invariant
            i <= pieces@.len(),
            all == piece_views(pieces@),
            out@ + flat(all.skip(i as int)) == flat(all),
        decreases pieces@.len() - i,
    {
        let ghost before = out@;
        let ghost p = all[i as int];
        assert(all.skip(i as int)[0] == p);
        assert(all.skip(i as int).skip(1) =~= all.skip(i + 1));
        let mut j: usize = 0;
        assert(out@ =~= before + p.take(0));
        while j < pieces[i].len()
            invariant
                i < pieces@.len(),
                p == pieces@[i as int]@,
                j <= p.len(),
                out@ == before + p.take(j as int),
            decreases p.len() - j,
        {
            out.push(pieces[i][j]);
            j = j + 1;
            assert(out@ =~= before + p.take(j as int));
        }
        assert(p.take(j as int) =~= p);
        assert(before + (p + flat(all.skip(i + 1))) =~= out@ + flat(all.skip(i + 1)));
        i = i + 1;
    }
    assert(all.skip(i as int) =~= Seq::empty());
    assert(out@ + Seq::<char>::empty() =~= out@);
    out
}

/// What a text is compared as, given what its characters are compared as.
fn compare_as(s: &[char], pieces: &Vec<Vec<char>>, case_sensitive: bool) -> (r: Vec<char>)
    requires
        piece_views(pieces@) == folded_cells(s@, case_sensitive),
    ensures
        r@ == compared(s@, case_sensitive),
{
    if !case_sensitive {
        let mut i: usize = 0;
        while i < s.len()
            invariant
                i <= s@.len(),
                !case_sensitive,
                forall|j: int| 0 <= j < i ==> s@[j] != capital_sigma(),
            decreases s@.len() - i,
        {
            if s[i] == '\u{3a3}' {
                assert(s@.contains(capital_sigma()));
                return text::to_chars(text::lower_text(text::to_string(s).as_str()).as_str());
            }
            i = i + 1;
        }
    }
    flatten(pieces)
}

/// How many characters each piece has.
fn count_lengths(pieces: &Vec<Vec<char>>) -> (r: Vec<usize>)
    ensures
        r@.map_values(|n: usize| n as int) == lengths(piece_views(pieces@)),
{
    let mut out: Vec<usize> = Vec::new();
    let mut i: usize = 0;
    while i < pieces.len()
        invariant
            i <= pieces@.len(),
            out@.len() == i,
            forall|j: int| 0 <= j < i ==> #[trigger] out@[j] == pieces@[j]@.len(),
        decreases pieces@.len() - i,
    {
        out.push(pieces[i].len());
        i = i + 1;
    }
    assert(out@.map_values(|n: usize| n as int) =~= lengths(piece_views(pieces@)));
    out
}

/// The piece that a position falls into.
fn find_piece(lens: &Vec<usize>, pos: usize) -> (r: usize)
    ensures
        r == piece_at(lens@.map_values(|n: usize| n as int), pos as int),
        r == 0 || r < lens@.len(),
{
    let ghost all = lens@.map_values(|n: usize| n as int);
    let mut i: usize = 0;
    let mut left: usize = pos;
    assert(all.skip(0) =~= all);
    while lens.len() > 1 && i < lens.len() - 1 && left >= lens[i]
        invariant
            all == lens@.map_values(|n: usize| n as int),
            i == 0 || i < lens@.len(),
            piece_at(all, pos as int) == i + piece_at(all.skip(i as int), left as int),
        decreases lens@.len() - i,
    {
        assert(all.skip(i as int)[0] == lens@[i as int]);
        assert(all.skip(i as int).skip(1) =~= all.skip(i + 1));
        left = left - lens[i];
        i = i + 1;
    }
    assert(i < all.len() ==> all.skip(i as int)[0] == lens@[i as int]);
    i
}

/// Where the query stands in a line, in order.
pub fn find_plain(line: &[char], query: &[char], case_sensitive: bool, whole_word: bool) -> (r: Vec<
    (usize, usize),
>)
    ensures
        r@ == hits(line@, query@, case_sensitive, whole_word),
{
    let pieces: Vec<Vec<char>> = fold_cells(line, case_sensitive);
    let hay: Vec<char> = compare_as(line, &pieces, case_sensitive);
    let lens: Vec<usize> = count_lengths(&pieces);
    let needle: Vec<char> = compare_as(query, &fold_cells(query, case_sensitive), case_sensitive);
    let ghost all = lens@.map_values(|n: usize| n as int);
    let mut out: Vec<(usize, usize)> = Vec::new();
    let n: usize = needle.len();
    if n == 0 {
        proof {
            lemma_no_needle(hay@, needle@, all, whole_word, 0);
        }
        return out;
    }
    let mut at: usize = 0;
    let len: usize = hay.len();
    let ghost want = hits_from(hay@, needle@, all, whole_word, 0);
    assert(out@ + want =~= want);
    while at < len && n <= len - at
        invariant
            n == needle@.len(),
            n > 0,
            len == hay@.len(),
            at <= len,
            all == lens@.map_values(|n: usize| n as int),
            want == out@ + hits_from(hay@, needle@, all, whole_word, at as int),
        decreases len - at,
    {
        let ghost before = out@;
        let ghost rest = hits_from(hay@, needle@, all, whole_word, at + 1);
        if text::starts_at(hay.as_slice(), needle.as_slice(), at) {
            let alone: bool = (at == 0 || !is_alphanumeric(hay[at - 1])) && (at + n >= len
                || !is_alphanumeric(hay[at + n]));
            if !whole_word || alone {
                let first: usize = find_piece(&lens, at);
                let last: usize = find_piece(&lens, at + n - 1);
                let found: (usize, usize) = (first, last.saturating_sub(first) + 1);
                out.push(found);
                assert(found == span(all, at as int, n as int));
                assert(before + (seq![found] + rest) =~= out@ + rest);
            }
        }
        at = at + 1;
    }
    proof {
        lemma_no_room(hay@, needle@, all, whole_word, at as int);
    }
    assert(out@ + Seq::<(usize, usize)>::empty() =~= out@);
    out
}

proof fn lemma_no_needle(
    hay: Seq<char>,
    needle: Seq<char>,
    lens: Seq<int>,
    whole_word: bool,
    at: int,
)
    requires
        needle.len() == 0,
    ensures
        hits_from(hay, needle, lens, whole_word, at) == Seq::<(usize, usize)>::empty(),
    decreases hay.len() - at,
{
    if 0 <= at < hay.len() {
        lemma_no_needle(hay, needle, lens, whole_word, at + 1);
    }
}

proof fn lemma_no_room(
    hay: Seq<char>,
    needle: Seq<char>,
    lens: Seq<int>,
    whole_word: bool,
    at: int,
)
    requires
        at + needle.len() > hay.len(),
    ensures
        hits_from(hay, needle, lens, whole_word, at) == Seq::<(usize, usize)>::empty(),
    decreases hay.len() - at,
{
    if 0 <= at < hay.len() {
        lemma_no_room(hay, needle, lens, whole_word, at + 1);
    }
}

/// The column of the character that starts at a byte of a line.
fn find_column(line: &[char], byte: usize) -> (r: usize)
    ensures
        r == column_at(line@, byte as int),
        r <= line@.len(),
{
    let mut left: usize = byte;
    let mut i: usize = 0;
    assert(line@.skip(0) =~= line@);
    while i < line.len() && left > 0
        invariant
            i <= line@.len(),
            column_at(line@, byte as int) == i + column_at(line@.skip(i as int), left as int),
        decreases line@.len() - i,
    {
        let c: char = line[i];
        let code: u32 = c as u32;
        let w: usize = if code < 0x80 {
            1
        } else if code < 0x800 {
            2
        } else if code < 0x1_0000 {
            3
        } else {
            4
        };
        assert(line@.skip(i as int)[0] == c);
        assert(line@.skip(i as int).skip(1) =~= line@.skip(i + 1));
        assert(left < w ==> column_at(line@.skip(i + 1), left - w) == column_at(
            line@.skip(i + 1),
            0,
        ));
        left = left.saturating_sub(w);
        i = i + 1;
    }
    i
}

/// Matches given in bytes, in columns.
fn to_columns(line: &[char], found: &Vec<(usize, usize)>) -> (r: Vec<(usize, usize)>)
    ensures
        r@ == found@.map_values(|m: (usize, usize)| in_columns(line@, m)),
{
    let ghost want = found@.map_values(|m: (usize, usize)| in_columns(line@, m));
    let mut out: Vec<(usize, usize)> = Vec::new();
    let mut i: usize = 0;
    while i < found.len()
        invariant
            i <= found@.len(),
            want == found@.map_values(|m: (usize, usize)| in_columns(line@, m)),
            out@ == want.take(i as int),
        decreases found@.len() - i,
    {
        let from: usize = find_column(line, found[i].0);
        let to: usize = find_column(line, found[i].1);
        out.push((from, to.saturating_sub(from)));
        i = i + 1;
        assert(out@ =~= want.take(i as int));
    }
    assert(want.take(i as int) =~= want);
    out
}

/// Appends the matches of a row.
fn push_in_row(out: &mut Vec<(usize, usize, usize)>, row: usize, found: &Vec<(usize, usize)>)
    ensures
        final(out)@ == old(out)@ + in_row(row as int, found@),
{
    let mut i: usize = 0;
    let ghost all = in_row(row as int, found@);
    while i < found.len()
        invariant
            i <= found@.len(),
            all == in_row(row as int, found@),
            out@ == old(out)@ + all.take(i as int),
        decreases found@.len() - i,
    {
        out.push((row, found[i].0, found[i].1));
        i = i + 1;
        assert(out@ =~= old(out)@ + all.take(i as int));
    }
    assert(all.take(i as int) =~= all);
}

/// The pattern of a regular-expression search.
fn make_pattern(query: &str, whole_word: bool) -> (r: String)
    ensures
        r@ == search_pattern(query@, whole_word),
{
    if !whole_word {
        return query.to_owned();
    }
    let mut out: String = String::new();
    text::push_char(&mut out, '\\');
    text::push_char(&mut out, 'b');
    text::push_char(&mut out, '(');
    text::push_char(&mut out, '?');
    text::push_char(&mut out, ':');
    out.append(query);
    text::push_char(&mut out, ')');
    text::push_char(&mut out, '\\');
    text::push_char(&mut out, 'b');
    assert(out@ =~= search_pattern(query@, whole_word));
    out
}

impl Grid {
    /// The characters of an absolute row.
    fn row_chars(&self, abs: usize) -> (r: Vec<char>)
        requires
            self@.wf(),
            abs < self@.screen.total(),
        ensures
            r@ == self@.screen.row_chars(abs as int),
    {
        match self.absolute_row(abs) {
            Some(row) => readout::row_chars(row),
            None => Vec::new(),
        }
    }

    /// Matches of a compiled expression in all rows.
    pub fn search_regex(&self, re: &regex::Regex) -> (r: Vec<(usize, usize, usize)>)
        requires
            self@.wf(),
        ensures
            r@ == self@.screen.regex_hits(0, regex_source(*re).0, regex_source(*re).1),
            self@.screen.told_of_rows(regex_source(*re).0, regex_source(*re).1),
    {
        let ghost src = regex_source(*re);
        let total: usize = self.total_rows();
        let mut out: Vec<(usize, usize, usize)> = Vec::new();
        let mut abs: usize = 0;
        let ghost want = self@.screen.regex_hits(0, src.0, src.1);
        assert(out@ + want =~= want);
        while abs < total
            invariant
                self@.wf(),
                total == self@.screen.total(),
                abs <= total,
                src == regex_source(*re),
                want == out@ + self@.screen.regex_hits(abs as int, src.0, src.1),
                forall|i: int|
                    0 <= i < abs ==> told(src.0, src.1, #[trigger] self@.screen.row_chars(i)),
            decreases total - abs,
        {
            let line: Vec<char> = self.row_chars(abs);
            let text: String = text::to_string(line.as_slice());
            let matches: Vec<(usize, usize)> = find_all(re, text.as_str());
            let found: Vec<(usize, usize)> = to_columns(line.as_slice(), &matches);
            let ghost before = out@;
            push_in_row(&mut out, abs, &found);
            assert(before + (in_row(abs as int, found@) + self@.screen.regex_hits(
                abs + 1,
                src.0,
                src.1,
            )) =~= out@ + self@.screen.regex_hits(abs + 1, src.0, src.1));
            abs = abs + 1;
        }
        assert(out@ + Seq::<(usize, usize, usize)>::empty() =~= out@);
        out
    }

    /// Places of a plain text in all rows.
    pub fn search_plain(&self, query: &str, case_sensitive: bool, whole_word: bool) -> (r: Vec<
        (usize, usize, usize),
    >)
        requires
            self@.wf(),
        ensures
            r@ == self@.screen.plain_hits(0, query@, case_sensitive, whole_word),
    {
        let needle: Vec<char> = text::to_chars(query);
        let total: usize = self.total_rows();
        let mut out: Vec<(usize, usize, usize)> = Vec::new();
        let mut abs: usize = 0;
        let ghost want = self@.screen.plain_hits(0, query@, case_sensitive, whole_word);
        assert(out@ + want =~= want);
        while abs < total
            invariant
                self@.wf(),
                total == self@.screen.total(),
                abs <= total,
                needle@ == query@,
                want == out@ + self@.screen.plain_hits(
                    abs as int,
                    query@,
                    case_sensitive,
                    whole_word,
                ),
            decreases total - abs,
        {
            let line: Vec<char> = self.row_chars(abs);
            let found: Vec<(usize, usize)> = find_plain(
                line.as_slice(),
                needle.as_slice(),
                case_sensitive,
                whole_word,
            );
            let ghost before = out@;
            push_in_row(&mut out, abs, &found);
            assert(before + (in_row(abs as int, found@) + self@.screen.plain_hits(
                abs + 1,
                query@,
                case_sensitive,
                whole_word,
            )) =~= out@ + self@.screen.plain_hits(abs + 1, query@, case_sensitive, whole_word));
            abs = abs + 1;
        }
        assert(out@ + Seq::<(usize, usize, usize)>::empty() =~= out@);
        out
    }

    /// Search all rows (scrollback + screen) for matches.
    /// Returns `(abs_row, start_col, match_len)` for every match found.
    ///
    /// `case_sensitive` — respect letter case.
    /// `whole_word` — match only at word boundaries.
    /// `use_regex` — interpret `query` as a regex pattern.
    pub fn search_text(
        &self,
        query: &str,
        case_sensitive: bool,
        whole_word: bool,
        use_regex: bool,
    ) -> (r: Vec<(usize, usize, usize)>)
        requires
            self@.wf(),
        ensures
            r@ == self@.screen.found(query@, case_sensitive, whole_word, use_regex),
            use_regex && query@.len() > 0 && regex_valid(
                search_pattern(query@, whole_word),
                !case_sensitive,
            ) ==> self@.screen.told_of_rows(search_pattern(query@, whole_word), !case_sensitive),
    {
        if query.is_empty() {
            return Vec::new();
        }
        if use_regex {
            let pattern: String = make_pattern(query, whole_word);
            match compile(pattern.as_str(), !case_sensitive) {
                Some(re) => self.search_regex(&re),
                None => Vec::new(),
            }
        } else {
            self.search_plain(query, case_sensitive, whole_word)
        }
    }
}

proof fn lemma_hits_sound(
    hay: Seq<char>,
    needle: Seq<char>,
    lens: Seq<int>,
    whole_word: bool,
    at: int,
    k: int,
) -> (p: int)
    requires
        0 <= k < hits_from(hay, needle, lens, whole_word, at).len(),
    ensures
        hit(hay, needle, whole_word, p),
        hits_from(hay, needle, lens, whole_word, at)[k] == span(lens, p, needle.len() as int),
    decreases hay.len() - at,
{
    if hit(hay, needle, whole_word, at) {
        if k == 0 {
            at
        } else {
            lemma_hits_sound(hay, needle, lens, whole_word, at + 1, k - 1)
        }
    } else {
        lemma_hits_sound(hay, needle, lens, whole_word, at + 1, k)
    }
}

proof fn lemma_hits_complete(
    hay: Seq<char>,
    needle: Seq<char>,
    lens: Seq<int>,
    whole_word: bool,
    at: int,
    p: int,
)
    requires
        0 <= at <= p,
        hit(hay, needle, whole_word, p),
    ensures
        hits_from(hay, needle, lens, whole_word, at).contains(span(lens, p, needle.len() as int)),
    decreases p - at,
{
    let all = hits_from(hay, needle, lens, whole_word, at);
    let rest = hits_from(hay, needle, lens, whole_word, at + 1);
    let m = span(lens, p, needle.len() as int);
    if at == p {
        assert(all[0] == m);
    } else {
        lemma_hits_complete(hay, needle, lens, whole_word, at + 1, p);
        let k = choose|k: int| 0 <= k < rest.len() && rest[k] == m;
        if hit(hay, needle, whole_word, at) {
            assert(all[k + 1] == m);
        } else {
            assert(all[k] == m);
        }
    }
}

/// A plain search reports exactly the places where the query stands in what the line is compared
/// as, each by the columns that it stands for.
pub proof fn law_hits_exact(
    line: Seq<char>,
    query: Seq<char>,
    case_sensitive: bool,
    whole_word: bool,
    m: (usize, usize),
)
    ensures
        hits(line, query, case_sensitive, whole_word).contains(m) <==> exists|p: int|
            #[trigger] hit(
                compared(line, case_sensitive),
                compared(query, case_sensitive),
                whole_word,
                p,
            ) && m == span(
                lengths(folded_cells(line, case_sensitive)),
                p,
                compared(query, case_sensitive).len() as int,
            ),
{
    let hay = compared(line, case_sensitive);
    let needle = compared(query, case_sensitive);
    let lens = lengths(folded_cells(line, case_sensitive));
    let all = hits(line, query, case_sensitive, whole_word);
    if all.contains(m) {
        let k = choose|k: int| 0 <= k < all.len() && all[k] == m;
        let p = lemma_hits_sound(hay, needle, lens, whole_word, 0, k);
        assert(hit(hay, needle, whole_word, p));
    }
    if exists|p: int| #[trigger] hit(hay, needle, whole_word, p) && m == span(
        lens,
        p,
        needle.len() as int,
    ) {
        let p = choose|p: int| #[trigger] hit(hay, needle, whole_word, p) && m == span(
            lens,
            p,
            needle.len() as int,
        );
        lemma_hits_complete(hay, needle, lens, whole_word, 0, p);
    }
}

/// A position in pieces put together falls into the piece that holds its character.
pub proof fn law_position_in_piece(pieces: Seq<Seq<char>>, pos: int)
    requires
        0 <= pos < flat(pieces).len(),
    ensures
        ({
            let c = piece_at(lengths(pieces), pos);
            let start = flat(pieces.take(c)).len();
            &&& 0 <= c < pieces.len()
            &&& start <= pos < start + pieces[c].len()
            &&& flat(pieces)[pos] == pieces[c][pos - start]
        }),
    decreases pieces.len(),
{
    let lens = lengths(pieces);
    let c = piece_at(lens, pos);
    let rest = pieces.skip(1);
    assert(lens.skip(1) =~= lengths(rest));
    if lens.len() <= 1 || pos < lens[0] {
        assert(pieces.take(0) =~= Seq::empty());
        if lens.len() == 1 {
            assert(rest =~= Seq::empty());
            assert(flat(rest) =~= Seq::empty());
            assert(flat(pieces) =~= pieces[0]);
        }
    } else {
        law_position_in_piece(rest, pos - lens[0]);
        let front = pieces.take(c);
        assert(front[0] == pieces[0]);
        assert(front.skip(1) =~= rest.take(c - 1));
    }
}

/// Where every piece has one character, positions are pieces.
proof fn lemma_single_pieces(lens: Seq<int>, pos: int)
    requires
        forall|i: int| 0 <= i < lens.len() ==> #[trigger] lens[i] == 1,
        0 <= pos < lens.len(),
    ensures
        piece_at(lens, pos) == pos,
    decreases lens.len(),
{
    assert(lens[0] == 1);
    if pos > 0 {
        assert forall|i: int| 0 <= i < lens.skip(1).len() implies #[trigger] lens.skip(1)[i]
            == 1 by {
            assert(lens[i + 1] == 1);
        }
        lemma_single_pieces(lens.skip(1), pos - 1);
    }
}

proof fn lemma_single_cells(s: Seq<char>)
    ensures
        compared(s, true) == s,
    decreases s.len(),
{
    let cells = folded_cells(s, true);
    if s.len() > 0 {
        assert(cells.skip(1) =~= folded_cells(s.skip(1), true));
        lemma_single_cells(s.skip(1));
        assert(cells[0] =~= seq![s[0]]);
        assert(seq![s[0]] + s.skip(1) =~= s);
    } else {
        assert(s =~= Seq::<char>::empty());
    }
}

proof fn lemma_ascii_cells(s: Seq<char>)
    requires
        text::plain(s),
    ensures
        compared(s, false) == text::small_letters(s),
        forall|i: int| 0 <= i < s.len() ==> #[trigger] lengths(folded_cells(s, false))[i] == 1,
    decreases s.len(),
{
    let cells = folded_cells(s, false);
    let small = text::small_letters(s);
    assert forall|i: int| 0 <= i < s.len() implies #[trigger] lengths(cells)[i] == 1 by {
        assert((s[i] as u32) < 128);
    }
    if s.contains(capital_sigma()) {
        let i = choose|i: int| 0 <= i < s.len() && s[i] == capital_sigma();
        assert((s[i] as u32) < 128);
    }
    if s.len() > 0 {
        assert(cells.skip(1) =~= folded_cells(s.skip(1), false));
        assert forall|i: int| 0 <= i < s.skip(1).len() implies (#[trigger] s.skip(1)[i] as u32)
            < 128 by {
            assert((s[i + 1] as u32) < 128);
        }
        lemma_ascii_cells(s.skip(1));
        assert(!s.skip(1).contains(capital_sigma())) by {
            if s.skip(1).contains(capital_sigma()) {
                let i = choose|i: int| 0 <= i < s.skip(1).len() && s.skip(1)[i] == capital_sigma();
                assert((s[i + 1] as u32) < 128);
            }
        }
        assert((s[0] as u32) < 128);
        assert(cells[0] =~= seq![small[0]]);
        assert(text::small_letters(s.skip(1)) =~= small.skip(1));
        assert(seq![small[0]] + small.skip(1) =~= small);
    } else {
        assert(small =~= Seq::<char>::empty());
    }
}

/// Where positions are columns, a hit is reported by its position and the length of the query.
proof fn lemma_plain_columns(
    line: Seq<char>,
    query: Seq<char>,
    case_sensitive: bool,
    whole_word: bool,
    p: int,
    n: int,
)
    requires
        line.len() <= usize::MAX,
        compared(line, case_sensitive).len() == line.len(),
        forall|i: int|
            0 <= i < line.len() ==> #[trigger] lengths(folded_cells(line, case_sensitive))[i] == 1,
        0 <= p <= usize::MAX,
        0 <= n <= usize::MAX,
    ensures
        hits(line, query, case_sensitive, whole_word).contains((p as usize, n as usize)) <==> n
            == compared(query, case_sensitive).len() && hit(
            compared(line, case_sensitive),
            compared(query, case_sensitive),
            whole_word,
            p,
        ),
{
    let hay = compared(line, case_sensitive);
    let needle = compared(query, case_sensitive);
    let lens = lengths(folded_cells(line, case_sensitive));
    let m = (p as usize, n as usize);
    law_hits_exact(line, query, case_sensitive, whole_word, m);
    assert forall|q: int| hit(hay, needle, whole_word, q) implies #[trigger] span(
        lens,
        q,
        needle.len() as int,
    ) == (q as usize, needle.len() as usize) by {
        lemma_single_pieces(lens, q);
        lemma_single_pieces(lens, q + needle.len() - 1);
    }
    if hits(line, query, case_sensitive, whole_word).contains(m) {
        let q = choose|q: int| #[trigger] hit(hay, needle, whole_word, q) && m == span(
            lens,
            q,
            needle.len() as int,
        );
        assert(span(lens, q, needle.len() as int) == (q as usize, needle.len() as usize));
    }
    if n == needle.len() && hit(hay, needle, whole_word, p) {
        assert(span(lens, p, needle.len() as int) == m);
    }
}

/// With regard to case, a search reports a column if and only if the columns from there on hold
/// the characters of the query, one column for each.
pub proof fn law_case_sensitive_hits(line: Seq<char>, query: Seq<char>, p: int, n: int)
    requires
        query.len() > 0,
        line.len() <= usize::MAX,
        0 <= p <= usize::MAX,
        0 <= n <= usize::MAX,
    ensures
        hits(line, query, true, false).contains((p as usize, n as usize)) <==> n == query.len() && p
            + n <= line.len() && line.subrange(p, p + n) == query,
{
    lemma_single_cells(line);
    lemma_single_cells(query);
    lemma_plain_columns(line, query, true, false, p, n);
}

/// Without regard to case, a search for an ASCII query in an ASCII line reports a column if and
/// only if the columns from there on hold the characters of the query in lower or in upper case,
/// one column for each.
pub proof fn law_ascii_hits(line: Seq<char>, query: Seq<char>, p: int, n: int)
    requires
        text::plain(line),
        text::plain(query),
        query.len() > 0,
        line.len() <= usize::MAX,
        0 <= p <= usize::MAX,
        0 <= n <= usize::MAX,
    ensures
        hits(line, query, false, false).contains((p as usize, n as usize)) <==> n == query.len()
            && p + n <= line.len() && text::small_letters(line.subrange(p, p + n))
            == text::small_letters(query),
{
    lemma_ascii_cells(line);
    lemma_ascii_cells(query);
    lemma_plain_columns(line, query, false, false, p, n);
    if p + n <= line.len() {
        assert(text::small_letters(line).subrange(p, p + n) =~= text::small_letters(
            line.subrange(p, p + n),
        ));
    }
}

/// The byte at which the character of a column starts.
pub open spec fn byte_of(line: Seq<char>, col: int) -> int
    decreases col,
{
    if col <= 0 {
        0
    } else {
        byte_of(line, col - 1) + width_in_bytes(line[col - 1])
    }
}

proof fn lemma_byte_of_skip(line: Seq<char>, col: int)
    requires
        0 < col <= line.len(),
    ensures
        byte_of(line, col) == width_in_bytes(line[0]) + byte_of(line.skip(1), col - 1),
        byte_of(line, col) > 0,
    decreases col,
{
    if col > 1 {
        lemma_byte_of_skip(line, col - 1);
        assert(line.skip(1)[col - 2] == line[col - 1]);
    } else {
        assert(byte_of(line, 0) == 0);
        assert(byte_of(line.skip(1), 0) == 0);
    }
}

/// The byte at which a column's character starts leads back to the column.
pub proof fn law_columns_come_back(line: Seq<char>, col: int)
    requires
        0 <= col <= line.len(),
    ensures
        column_at(line, byte_of(line, col)) == col,
    decreases line.len(),
{
    if col > 0 {
        lemma_byte_of_skip(line, col);
        law_columns_come_back(line.skip(1), col - 1);
    }
}

/// With regard to case, a search for whole words reports a column if and only if the columns from
/// there on hold the characters of the query and no ASCII letter or digit stands right before or
/// right behind them.
pub proof fn law_whole_words(line: Seq<char>, query: Seq<char>, p: int, n: int)
    requires
        query.len() > 0,
        line.len() <= usize::MAX,
        0 <= p <= usize::MAX,
        0 <= n <= usize::MAX,
    ensures
        hits(line, query, true, true).contains((p as usize, n as usize)) <==> {
            &&& n == query.len()
            &&& p + n <= line.len()
            &&& line.subrange(p, p + n) == query
            &&& p > 0 ==> !('0' <= line[p - 1] <= '9' || 'A' <= line[p - 1] <= 'Z' || 'a' <= line[p
                - 1] <= 'z')
            &&& p + n < line.len() ==> !('0' <= line[p + n] <= '9' || 'A' <= line[p + n] <= 'Z'
                || 'a' <= line[p + n] <= 'z')
        },
{
    lemma_single_cells(line);
    lemma_single_cells(query);
    lemma_plain_columns(line, query, true, true, p, n);
}

/// Without regard to case, a search for whole words in an ASCII line reports those places of the
/// search for the query that have no letter or digit right before or right behind them.
pub proof fn law_ascii_whole_words(line: Seq<char>, query: Seq<char>, p: int, n: int)
    requires
        text::plain(line),
        text::plain(query),
        query.len() > 0,
        line.len() <= usize::MAX,
        0 <= p <= usize::MAX,
        0 <= n <= usize::MAX,
    ensures
        hits(line, query, false, true).contains((p as usize, n as usize)) <==> {
            &&& hits(line, query, false, false).contains((p as usize, n as usize))
            &&& p > 0 ==> !('0' <= line[p - 1] <= '9' || 'A' <= line[p - 1] <= 'Z' || 'a' <= line[p
                - 1] <= 'z')
            &&& p + n < line.len() ==> !('0' <= line[p + n] <= '9' || 'A' <= line[p + n] <= 'Z'
                || 'a' <= line[p + n] <= 'z')
        },
{
    lemma_ascii_cells(line);
    lemma_ascii_cells(query);
    lemma_plain_columns(line, query, false, true, p, n);
    lemma_plain_columns(line, query, false, false, p, n);
    let low = text::small_letters(line);
    if 0 < p <= line.len() {
        assert(alphanumeric(low[p - 1]) == alphanumeric(line[p - 1]));
    }
    if p + n < line.len() {
        assert(alphanumeric(low[p + n]) == alphanumeric(line[p + n]));
    }
}

/// The characters of an absolute row, the history before the screen.
pub open spec fn chars_at(s: ScreenView, abs: int) -> Seq<char> {
    if abs < s.history.len() {
        s.history[abs].map_values(|c: crate::cell::Cell| c.ch)
    } else {
        s.lines[abs - s.history.len()].map_values(|c: crate::cell::Cell| c.ch)
    }
}

proof fn lemma_in_row(row: int, found: Seq<(usize, usize)>, m: (usize, usize, usize))
    requires
        0 <= row <= usize::MAX,
    ensures
        in_row(row, found).contains(m) <==> m.0 == row && found.contains((m.1, m.2)),
{
    let all = in_row(row, found);
    if all.contains(m) {
        let k = choose|k: int| 0 <= k < all.len() && all[k] == m;
        assert(found[k] == (m.1, m.2));
    }
    if m.0 == row && found.contains((m.1, m.2)) {
        let k = choose|k: int| 0 <= k < found.len() && found[k] == (m.1, m.2);
        assert(all[k] == m);
    }
}

proof fn lemma_either(
    a: Seq<(usize, usize, usize)>,
    b: Seq<(usize, usize, usize)>,
    m: (usize, usize, usize),
)
    ensures
        (a + b).contains(m) <==> a.contains(m) || b.contains(m),
{
    if (a + b).contains(m) {
        let k = choose|k: int| 0 <= k < (a + b).len() && (a + b)[k] == m;
        if k < a.len() {
            assert(a[k] == m);
        } else {
            assert(b[k - a.len()] == m);
        }
    }
    if a.contains(m) {
        let k = choose|k: int| 0 <= k < a.len() && a[k] == m;
        assert((a + b)[k] == m);
    }
    if b.contains(m) {
        let k = choose|k: int| 0 <= k < b.len() && b[k] == m;
        assert((a + b)[a.len() + k] == m);
    }
}

proof fn lemma_plain_rows(
    s: ScreenView,
    abs: int,
    query: Seq<char>,
    case_sensitive: bool,
    whole_word: bool,
    m: (usize, usize, usize),
)
    requires
        0 <= abs,
        s.total() <= usize::MAX,
    ensures
        s.plain_hits(abs, query, case_sensitive, whole_word).contains(m) <==> abs <= m.0 < s.total()
            && hits(chars_at(s, m.0 as int), query, case_sensitive, whole_word).contains(
            (m.1, m.2),
        ),
    decreases s.total() - abs,
{
    if abs < s.total() {
        lemma_plain_rows(s, abs + 1, query, case_sensitive, whole_word, m);
        let here = hits(s.row_chars(abs), query, case_sensitive, whole_word);
        assert(s.row_chars(abs) =~= chars_at(s, abs));
        lemma_in_row(abs, here, m);
        lemma_either(
            in_row(abs, here),
            s.plain_hits(abs + 1, query, case_sensitive, whole_word),
            m,
        );
    }
}

proof fn lemma_regex_rows(
    s: ScreenView,
    abs: int,
    pattern: Seq<char>,
    ignore_case: bool,
    m: (usize, usize, usize),
)
    requires
        0 <= abs,
        s.total() <= usize::MAX,
    ensures
        s.regex_hits(abs, pattern, ignore_case).contains(m) <==> abs <= m.0 < s.total() && ({
            let line = chars_at(s, m.0 as int);
            regex_matches(pattern, ignore_case, line).map_values(
                |m: (usize, usize)| in_columns(line, m),
            ).contains((m.1, m.2))
        }),
    decreases s.total() - abs,
{
    if abs < s.total() {
        lemma_regex_rows(s, abs + 1, pattern, ignore_case, m);
        let line = s.row_chars(abs);
        let here = regex_matches(pattern, ignore_case, line).map_values(
            |m: (usize, usize)| in_columns(line, m),
        );
        assert(s.row_chars(abs) =~= chars_at(s, abs));
        lemma_in_row(abs, here, m);
        lemma_either(in_row(abs, here), s.regex_hits(abs + 1, pattern, ignore_case), m);
    }
}

/// A plain search looks at every row, those of the history first, and reports in each what it
/// finds there: a query of more than nothing, with regard to case, wherever its characters stand.
pub proof fn law_search_covers_rows(s: ScreenView, query: Seq<char>, abs: int, p: int)
    requires
        query.len() > 0,
        s.total() <= usize::MAX,
        0 <= abs < s.total(),
        0 <= p,
        p + query.len() <= usize::MAX,
        chars_at(s, abs).len() <= usize::MAX,
    ensures
        s.found(query, true, false, false).contains(
            (abs as usize, p as usize, query.len() as usize),
        ) <==> p + query.len() <= chars_at(s, abs).len() && chars_at(s, abs).subrange(
            p,
            p + query.len(),
        ) == query,
{
    let n = query.len() as int;
    lemma_plain_rows(s, 0, query, true, false, (abs as usize, p as usize, n as usize));
    law_case_sensitive_hits(chars_at(s, abs), query, p, n);
}

/// A search by regular expression that is not for whole words reports in each row the matches of
/// the query itself, with or without regard to case as asked, by their columns; a query that is no
/// regular expression finds nothing.
pub proof fn law_regex_query_as_given(
    s: ScreenView,
    query: Seq<char>,
    case_sensitive: bool,
    abs: int,
    k: int,
)
    requires
        query.len() > 0,
        s.total() <= usize::MAX,
        0 <= abs < s.total(),
    ensures
        !regex_valid(query, !case_sensitive) ==> s.found(query, case_sensitive, false, true).len()
            == 0,
        ({
            let line = if abs < s.history.len() {
                s.history[abs]
            } else {
                s.lines[abs - s.history.len()]
            };
            let chars = line.map_values(|c: crate::cell::Cell| c.ch);
            let found = regex_matches(query, !case_sensitive, chars);
            regex_valid(query, !case_sensitive) && 0 <= k < found.len() && found[k].0 <= found[k].1
                && line.len() <= usize::MAX ==> exists|m: (usize, usize, usize)|
                #[trigger]
                s.found(query, case_sensitive, false, true).contains(m) && m.0 == abs && m.1
                    == column_at(chars, found[k].0 as int) && m.1 + m.2 == column_at(
                    chars,
                    found[k].1 as int,
                )
        }),
{
    let chars = chars_at(s, abs);
    let found = regex_matches(query, !case_sensitive, chars);
    if regex_valid(query, !case_sensitive) && 0 <= k < found.len() && found[k].0 <= found[k].1
        && chars.len() <= usize::MAX {
        let c = in_columns(chars, found[k]);
        let m = (abs as usize, c.0, c.1);
        let columns = found.map_values(|m: (usize, usize)| in_columns(chars, m));
        assert(columns[k] == c);
        lemma_regex_rows(s, 0, query, !case_sensitive, m);
        lemma_columns_in_order(chars, found[k].0 as int, found[k].1 as int);
        assert(s.found(query, case_sensitive, false, true).contains(m));
    }
}

proof fn lemma_columns_in_order(line: Seq<char>, a: int, b: int)
    requires
        a <= b,
    ensures
        0 <= column_at(line, a) <= column_at(line, b) <= line.len(),
    decreases line.len(),
{
    if line.len() > 0 && b > 0 {
        let w = width_in_bytes(line[0]);
        lemma_columns_in_order(line.skip(1), a - w, b - w);
    }
}

/// A whole-word search by regular expression reports no place that begins or ends inside a word:
/// where it begins, and where it ends, the ASCII characters on the two sides are never both part
/// of a word. The query is a regular expression by itself.
#[verifier::rlimit(40)]
pub proof fn law_regex_whole_words(
    g: &Grid,
    query: &str,
    case_sensitive: bool,
    r: Vec<(usize, usize, usize)>,
    k: int,
)
    requires
        g@.wf(),
        call_ensures(Grid::search_text, (g, query, case_sensitive, true, true), r),
        0 <= k < r@.len(),
        g@.screen.total() <= usize::MAX,
    ensures
        regex_valid(query@, !case_sensitive) ==> {
            let s = g@.screen;
            let (abs, from) = (r@[k].0, r@[k].1);
            let to = r@[k].1 + r@[k].2;
            let line = if abs < s.history.len() {
                s.history[abs as int]
            } else {
                s.lines[abs - s.history.len()]
            };
            &&& abs < s.history.len() + s.lines.len()
            &&& to <= line.len()
            &&& 0 < from < line.len() ==> !(word_char(line[from - 1].ch) && word_char(
                line[from as int].ch,
            ))
            &&& 0 < to < line.len() ==> !(word_char(line[to - 1].ch) && word_char(line[to].ch))
        },
{
    let s = g@.screen;
    let pattern = seq!['\\', 'b', '(', '?', ':'] + query@ + seq![')', '\\', 'b'];
    assert(between(pattern) =~= query@);
    assert(between_edges(pattern));
    assert(r@ == s.found(query@, case_sensitive, true, true));
    assert(r@ == s.regex_hits(0, pattern, !case_sensitive));
    assert(r@.contains(r@[k]));
    lemma_regex_rows(s, 0, pattern, !case_sensitive, r@[k]);
    let abs = r@[k].0 as int;
    let chars = chars_at(s, abs);
    let found = regex_matches(pattern, !case_sensitive, chars);
    let columns = found.map_values(|m: (usize, usize)| in_columns(chars, m));
    let j = choose|j: int| 0 <= j < columns.len() && columns[j] == (r@[k].1, r@[k].2);
    assert(s.row_chars(abs) =~= chars);
    assert(told(pattern, !case_sensitive, s.row_chars(abs)));
    assert(keeps_edges(pattern, !case_sensitive, chars, found[j]));
    lemma_columns_in_order(chars, found[j].0 as int, found[j].1 as int);
    lemma_row_fits(g, abs);
}

/// A row has no more columns than can be counted.
proof fn lemma_row_fits(g: &Grid, abs: int)
    requires
        g@.wf(),
        0 <= abs < g@.screen.total(),
    ensures
        chars_at(g@.screen, abs).len() <= usize::MAX,
{
    g.lemma_fields();
    if abs < g@.screen.history.len() {
        assert(g@.screen.history[abs] == g.scrollback@[abs]@);
        assert(g.scrollback@[abs]@.len() == g.scrollback@[abs].len());
    } else {
        let i = abs - g@.screen.history.len();
        assert(g@.screen.lines[i] == g.cells@[i]@);
        assert(g.cells@[i]@.len() == g.cells@[i].len());
    }
}

/// For a query of ASCII letters and digits, with regard to case, a whole-word search by regular
/// expression reports in a row of ASCII text the same places as the plain one. The underscore is
/// part of a word to the first and to the second not, so the row has none.
#[verifier::rlimit(40)]
pub proof fn law_regex_words_are_plain_words(
    g: &Grid,
    query: &str,
    r: Vec<(usize, usize, usize)>,
    abs: int,
    p: int,
    n: int,
)
    requires
        g@.wf(),
        g@.screen.total() <= usize::MAX,
        call_ensures(Grid::search_text, (g, query, true, true, true), r),
        query@.len() > 0,
        forall|i: int| 0 <= i < query@.len() ==> alphanumeric(#[trigger] query@[i]),
        0 <= abs < g@.screen.total(),
        0 <= p <= usize::MAX,
        0 <= n <= usize::MAX,
        forall|i: int|
            0 <= i < chars_at(g@.screen, abs).len() ==> (#[trigger] chars_at(g@.screen, abs)[i]
                as u32) < 128 && chars_at(g@.screen, abs)[i] != '_',
    ensures
        regex_valid(query@, false) && regex_valid(
            seq!['\\', 'b', '(', '?', ':'] + query@ + seq![')', '\\', 'b'],
            false,
        ) ==> (r@.contains((abs as usize, p as usize, n as usize)) <==> g@.screen.found(
            query@,
            true,
            true,
            false,
        ).contains((abs as usize, p as usize, n as usize))),
{
    let s = g@.screen;
    let word = query@;
    let pattern = seq!['\\', 'b', '(', '?', ':'] + word + seq![')', '\\', 'b'];
    let m = (abs as usize, p as usize, n as usize);
    let chars = chars_at(s, abs);
    if regex_valid(word, false) && regex_valid(pattern, false) {
        assert(between(pattern) =~= word);
        assert(between_edges(pattern));
        assert(r@ == s.regex_hits(0, pattern, false));
        lemma_regex_rows(s, 0, pattern, false, m);
        lemma_plain_rows(s, 0, word, true, true, m);
        lemma_row_fits(g, abs);
        law_whole_words(chars, word, p, n);
        let found = regex_matches(pattern, false, chars);
        let columns = found.map_values(|m: (usize, usize)| in_columns(chars, m));
        assert(s.row_chars(abs) =~= chars);
        assert(told(pattern, false, s.row_chars(abs)));
        assert(finds_words(pattern, false, chars, found));
        if columns.contains((m.1, m.2)) {
            let j = choose|j: int| 0 <= j < columns.len() && columns[j] == (m.1, m.2);
            assert(keeps_edges(pattern, false, chars, found[j]));
            lemma_columns_in_order(chars, found[j].0 as int, found[j].1 as int);
            assert(text::word_at(chars, word, p));
            assert(chars.subrange(p, p + word.len())[0] == chars[p]);
            assert(chars.subrange(p, p + word.len())[word.len() - 1] == chars[p + word.len() - 1]);
            assert(alphanumeric(word[0]) && alphanumeric(word[word.len() - 1]));
            assert(word_edge(chars, p) && word_edge(chars, p + n));
        }
        if hits(chars, word, true, true).contains((m.1, m.2)) {
            assert(text::word_at(chars, word, p));
            assert(no_word_at(chars, p - 1) && no_word_at(chars, p + word.len()));
            let j = choose|j: int|
                0 <= j < found.len() && column_at(chars, (#[trigger] found[j]).0 as int) == p;
            assert(keeps_edges(pattern, false, chars, found[j]));
            lemma_columns_in_order(chars, found[j].0 as int, found[j].1 as int);
            assert(columns[j] == (m.1, m.2));
        }
    }
}

} // verus!
