//! Text as sequences of characters: whitespace, trimming, joining, searching.

use vstd::prelude::*;

verus! {

/// `String::push`: appends a character.
#[verifier::external_body]
pub(crate) fn push_char(s: &mut String, c: char)
    ensures
        final(s)@ == old(s)@.push(c),
{
    s.push(c);
}

/// The text in lower case, as `str::to_lowercase` has it.
pub uninterp spec fn lowercase(s: Seq<char>) -> Seq<char>;

/// A text of ASCII characters alone.
pub open spec fn plain(s: Seq<char>) -> bool {
    forall|i: int| 0 <= i < s.len() ==> (#[trigger] s[i] as u32) < 128
}

/// A text with the letters from A to Z in lower case.
pub open spec fn small_letters(s: Seq<char>) -> Seq<char> {
    s.map_values(|c: char| small_letter(c))
}

/// `str::to_lowercase`: the result goes by the name `lowercase`. Of an ASCII text it has the
/// letters from A to Z in lower case and the rest as it was.
#[verifier::external_body]
pub(crate) fn to_lowercase(s: &str) -> (r: String)
    ensures
        r@ == lowercase(s@),
        plain(s@) ==> r@ == small_letters(s@),
{
    s.to_lowercase()
}

/// An ASCII character in lower case.
pub open spec fn small_letter(c: char) -> char {
    if 'A' <= c <= 'Z' {
        (c as u32 + 32) as char
    } else {
        c
    }
}

/// A text in lower case: an ASCII text by its letters, another as `str::to_lowercase` has it.
pub open spec fn lowered(s: Seq<char>) -> Seq<char> {
    if plain(s) {
        small_letters(s)
    } else {
        lowercase(s)
    }
}

/// A text in lower case.
pub fn lower_text(s: &str) -> (r: String)
    ensures
        r@ == lowered(s@),
{
    to_lowercase(s)
}

/// One character in lower case: an ASCII character by its letter, another as
/// `str::to_lowercase` has it.
pub open spec fn lower_char(c: char) -> Seq<char> {
    if (c as u32) < 128 {
        seq![small_letter(c)]
    } else {
        lowercase(seq![c])
    }
}

/// One character in lower case.
pub fn lower(c: char) -> (r: Vec<char>)
    ensures
        r@ == lower_char(c),
{
    let code: u32 = c as u32;
    if code < 128 {
        let mut out: Vec<char> = Vec::new();
        let small: char = if 65 <= code && code <= 90 {
            (code as u8 + 32) as char
        } else {
            c
        };
        out.push(small);
        assert(out@ =~= seq![small_letter(c)]);
        out
    } else {
        let mut s: String = String::new();
        push_char(&mut s, c);
        assert(s@ =~= seq![c]);
        to_chars(to_lowercase(s.as_str()).as_str())
    }
}

/// The characters with the Unicode property White_Space.
pub open spec fn white(c: char) -> bool {
    let u = c as u32;
    ||| 0x09 <= u <= 0x0d
    ||| u == 0x20
    ||| u == 0x85
    ||| u == 0xa0
    ||| u == 0x1680
    ||| 0x2000 <= u <= 0x200a
    ||| u == 0x2028
    ||| u == 0x2029
    ||| u == 0x202f
    ||| u == 0x205f
    ||| u == 0x3000
}

/// The text without whitespace at its end.
pub open spec fn trimmed_end(s: Seq<char>) -> Seq<char>
    decreases s.len(),
{
    if s.len() > 0 && white(s.last()) {
        trimmed_end(s.drop_last())
    } else {
        s
    }
}

/// The text without whitespace at its start.
pub open spec fn trimmed_start(s: Seq<char>) -> Seq<char>
    decreases s.len(),
{
    if s.len() > 0 && white(s[0]) {
        trimmed_start(s.skip(1))
    } else {
        s
    }
}

/// The text without whitespace at either end.
pub open spec fn trimmed(s: Seq<char>) -> Seq<char> {
    trimmed_end(trimmed_start(s))
}

/// The texts in a row with `sep` between them.
pub open spec fn joined(parts: Seq<Seq<char>>, sep: Seq<char>) -> Seq<char>
    decreases parts.len(),
{
    if parts.len() == 0 {
        Seq::empty()
    } else if parts.len() == 1 {
        parts[0]
    } else {
        joined(parts.drop_last(), sep) + sep + parts.last()
    }
}

/// Trimming twice is trimming once.
pub proof fn law_trim_idempotent(s: Seq<char>)
    ensures
        trimmed_end(trimmed_end(s)) == trimmed_end(s),
        trimmed_start(trimmed_start(s)) == trimmed_start(s),
    decreases s.len(),
{
    if s.len() > 0 {
        law_trim_idempotent(s.drop_last());
        law_trim_idempotent(s.skip(1));
    }
}

/// Whether a character is whitespace.
pub fn is_white(c: char) -> (r: bool)
    ensures
        r == white(c),
{
    let u: u32 = c as u32;
    (u >= 0x09 && u <= 0x0d) || u == 0x20 || u == 0x85 || u == 0xa0 || u == 0x1680 || (u >= 0x2000
        && u <= 0x200a) || u == 0x2028 || u == 0x2029 || u == 0x202f || u == 0x205f || u == 0x3000
}

/// Cuts whitespace off the end.
pub fn trim_end(s: &mut Vec<char>)
    ensures
        final(s)@ == trimmed_end(old(s)@),
{
    while s.len() > 0 && is_white(s[s.len() - 1])
        invariant
            trimmed_end(s@) == trimmed_end(old(s)@),
        decreases s.len(),
    {
        let ghost before = s@;
        let _ = s.pop();
        assert(s@ =~= before.drop_last());
    }
}

/// The text without whitespace at either end.
pub fn trim(s: &[char]) -> (r: Vec<char>)
    ensures
        r@ == trimmed(s@),
{
    let mut i: usize = 0;
    assert(s@.skip(0) =~= s@);
    while i < s.len() && is_white(s[i])
        invariant
            i <= s@.len(),
            trimmed_start(s@.skip(i as int)) == trimmed_start(s@),
        decreases s@.len() - i,
    {
        assert(s@.skip(i as int).skip(1) =~= s@.skip(i + 1));
        assert(s@.skip(i as int)[0] == s@[i as int]);
        i = i + 1;
    }
    assert(i < s@.len() ==> s@.skip(i as int)[0] == s@[i as int]);
    let mut out: Vec<char> = copy_from(s, i);
    trim_end(&mut out);
    out
}

/// The elements from `from` on.
pub fn copy_from(s: &[char], from: usize) -> (r: Vec<char>)
    requires
        from <= s@.len(),
    ensures
        r@ == s@.skip(from as int),
{
    let mut out: Vec<char> = Vec::new();
    let mut i: usize = from;
    while i < s.len()
        invariant
            from <= i <= s@.len(),
            out@ == s@.subrange(from as int, i as int),
        decreases s@.len() - i,
    {
        out.push(s[i]);
        i = i + 1;
        assert(out@ =~= s@.subrange(from as int, i as int));
    }
    assert(out@ =~= s@.skip(from as int));
    out
}

/// The characters as a string.
pub fn to_string(s: &[char]) -> (r: String)
    ensures
        r@ == s@,
{
    let mut out: String = String::new();
    let mut i: usize = 0;
    while i < s.len()
        invariant
            i <= s@.len(),
            out@ == s@.take(i as int),
        decreases s@.len() - i,
    {
        push_char(&mut out, s[i]);
        i = i + 1;
        assert(out@ =~= s@.take(i as int));
    }
    assert(out@ =~= s@);
    out
}

/// The characters of a string.
pub fn to_chars(s: &str) -> (r: Vec<char>)
    ensures
        r@ == s@,
{
    let mut out: Vec<char> = Vec::new();
    for c in it: s.chars()
        invariant
            out@ == it.seq().take(it.index() as int),
            it.seq() == s@,
    {
        out.push(c);
        assert(out@ =~= it.seq().take(it.index() as int + 1));
    }
    assert(out@ =~= s@);
    out
}

/// Appends `part`, after a `sep` where there is something before it.
pub fn push_joined(out: &mut Vec<char>, first: bool, sep: char, part: &[char])
    ensures
        final(out)@ == if first {
            old(out)@ + part@
        } else {
            old(out)@ + seq![sep] + part@
        },
{
    if !first {
        out.push(sep);
    }
    let ghost before = out@;
    let mut i: usize = 0;
    while i < part.len()
        invariant
            i <= part@.len(),
            out@ == before + part@.take(i as int),
        decreases part@.len() - i,
    {
        out.push(part[i]);
        i = i + 1;
        assert(out@ =~= before + part@.take(i as int));
    }
    assert(part@.take(part@.len() as int) =~= part@);
    assert(out@ =~= before + part@);
    assert(!first ==> before =~= old(out)@ + seq![sep]);
}

/// `word` stands somewhere in `s`.
pub open spec fn contains_word(s: Seq<char>, word: Seq<char>) -> bool {
    exists|i: int| word_at(s, word, i)
}

/// `word` stands in `s` at `i`.
pub open spec fn word_at(s: Seq<char>, word: Seq<char>, i: int) -> bool {
    0 <= i && i + word.len() <= s.len() && s.subrange(i, i + word.len()) == word
}

/// A word with a character that the text lacks does not stand in it.
pub(crate) proof fn lemma_no_word(s: Seq<char>, word: Seq<char>, j: int)
    requires
        0 <= j < word.len(),
        !s.contains(word[j]),
    ensures
        !contains_word(s, word),
{
    if contains_word(s, word) {
        let i = choose|i: int| word_at(s, word, i);
        assert(s.subrange(i, i + word.len())[j] == s[i + j]);
    }
}

/// A word whose characters all stand in the text from `i` on stands in it.
pub(crate) proof fn lemma_word_at(s: Seq<char>, word: Seq<char>, i: int)
    requires
        0 <= i,
        i + word.len() <= s.len(),
        forall|j: int| 0 <= j < word.len() ==> s[i + j] == #[trigger] word[j],
    ensures
        contains_word(s, word),
{
    assert(s.subrange(i, i + word.len()) =~= word);
    assert(word_at(s, word, i));
}

/// Whether `word` stands somewhere in `s`.
pub fn contains(s: &[char], word: &[char]) -> (r: bool)
    ensures
        r == contains_word(s@, word@),
{
    let n: usize = word.len();
    let len: usize = s.len();
    let mut i: usize = 0;
    while i <= len && n <= len - i
        invariant
            n == word@.len(),
            len == s@.len(),
            i <= len + 1,
            forall|j: int| 0 <= j < i ==> !#[trigger] word_at(s@, word@, j),
        decreases len + 1 - i,
    {
        if starts_at(s, word, i) {
            assert(word_at(s@, word@, i as int));
            return true;
        }
        if i == len {
            assert(forall|j: int| j > len ==> !#[trigger] word_at(s@, word@, j));
            return false;
        }
        i = i + 1;
    }
    assert(forall|j: int| j >= i ==> !#[trigger] word_at(s@, word@, j));
    false
}

/// Whether `word` stands in `s` at `i`.
pub fn starts_at(s: &[char], word: &[char], i: usize) -> (r: bool)
    requires
        i + word@.len() <= s@.len(),
    ensures
        r == word_at(s@, word@, i as int),
{
    let len: usize = s.len();
    let mut k: usize = 0;
    while k < word.len()
        invariant
            k <= word@.len(),
            len == s@.len(),
            i + word@.len() <= s@.len(),
            forall|j: int| 0 <= j < k ==> s@[i + j] == word@[j],
        decreases word@.len() - k,
    {
        if s[i + k] != word[k] {
            assert(s@.subrange(i as int, i + word@.len())[k as int] != word@[k as int]);
            return false;
        }
        k = k + 1;
    }
    assert(s@.subrange(i as int, i + word@.len()) =~= word@);
    true
}

/// Whether a string is the given text.
pub fn is_text(s: &[char], want: &str) -> (r: bool)
    ensures
        r == (s@ == want@),
{
    let w: Vec<char> = to_chars(want);
    if s.len() != w.len() {
        return false;
    }
    let mut i: usize = 0;
    while i < s.len()
        invariant
            i <= s@.len() == w@.len(),
            w@ == want@,
            forall|j: int| 0 <= j < i ==> s@[j] == w@[j],
        decreases s@.len() - i,
    {
        if s[i] != w[i] {
            return false;
        }
        i = i + 1;
    }
    assert(s@ =~= want@);
    true
}

/// `a` stands before `b` in the order of their code points.
pub open spec fn precedes(a: Seq<char>, b: Seq<char>) -> bool
    decreases a.len(),
{
    if b.len() == 0 {
        false
    } else if a.len() == 0 {
        true
    } else if a[0] != b[0] {
        (a[0] as int) < (b[0] as int)
    } else {
        precedes(a.skip(1), b.skip(1))
    }
}

/// Of two texts either one stands before the other or they are the same, and never two of the
/// three.
pub proof fn law_order_total(a: Seq<char>, b: Seq<char>)
    ensures
        precedes(a, b) || precedes(b, a) || a == b,
        !(precedes(a, b) && precedes(b, a)),
        a == b ==> !precedes(a, b),
    decreases a.len(),
{
    if a.len() > 0 && b.len() > 0 {
        law_order_total(a.skip(1), b.skip(1));
        if a[0] == b[0] && a.skip(1) == b.skip(1) {
            assert(a =~= seq![a[0]] + a.skip(1));
            assert(b =~= seq![b[0]] + b.skip(1));
        }
    } else {
        assert(a.len() == b.len() ==> a =~= b);
    }
}

/// What stands before the first of two texts in order stands before the second.
pub proof fn law_order_transitive(a: Seq<char>, b: Seq<char>, c: Seq<char>)
    requires
        precedes(a, b),
        precedes(b, c),
    ensures
        precedes(a, c),
    decreases a.len(),
{
    if a.len() > 0 && a[0] == b[0] && b[0] == c[0] {
        law_order_transitive(a.skip(1), b.skip(1), c.skip(1));
    }
}

/// Whether `a` stands before `b` in the order of their code points.
pub fn is_before(a: &[char], b: &[char]) -> (r: bool)
    ensures
        r == precedes(a@, b@),
{
    let mut i: usize = 0;
    assert(a@.skip(0) =~= a@);
    assert(b@.skip(0) =~= b@);
    while i < a.len() && i < b.len()
        invariant
            i <= a@.len(),
            i <= b@.len(),
            precedes(a@, b@) == precedes(a@.skip(i as int), b@.skip(i as int)),
        decreases a@.len() - i,
    {
        let x: char = a[i];
        let y: char = b[i];
        assert(a@.skip(i as int).skip(1) =~= a@.skip(i + 1));
        assert(b@.skip(i as int).skip(1) =~= b@.skip(i + 1));
        if x != y {
            return x < y;
        }
        i = i + 1;
    }
    i < b.len()
}

/// Where a text without whitespace at its start begins.
proof fn lemma_start_trimmed(s: Seq<char>) -> (i: int)
    ensures
        0 <= i <= s.len(),
        trimmed_start(s) == s.skip(i),
        forall|k: int| 0 <= k < i ==> white(#[trigger] s[k]),
        i < s.len() ==> !white(s[i]),
    decreases s.len(),
{
    if s.len() > 0 && white(s[0]) {
        let j = lemma_start_trimmed(s.skip(1));
        assert(s.skip(1).skip(j) =~= s.skip(j + 1));
        assert forall|k: int| 0 <= k < j + 1 implies white(#[trigger] s[k]) by {
            if k > 0 {
                assert(s.skip(1)[k - 1] == s[k]);
            }
        }
        if j + 1 < s.len() {
            assert(s.skip(1)[j] == s[j + 1]);
        }
        j + 1
    } else {
        assert(s.skip(0) =~= s);
        0
    }
}

/// Where a text without whitespace at its end ends.
proof fn lemma_end_trimmed(s: Seq<char>) -> (j: int)
    ensures
        0 <= j <= s.len(),
        trimmed_end(s) == s.take(j),
        forall|k: int| j <= k < s.len() ==> white(#[trigger] s[k]),
        j > 0 ==> !white(s[j - 1]),
    decreases s.len(),
{
    if s.len() > 0 && white(s.last()) {
        let j = lemma_end_trimmed(s.drop_last());
        assert(s.drop_last().take(j) =~= s.take(j));
        assert forall|k: int| j <= k < s.len() implies white(#[trigger] s[k]) by {
            if k < s.len() - 1 {
                assert(s.drop_last()[k] == s[k]);
            }
        }
        j
    } else {
        assert(s.take(s.len() as int) =~= s);
        s.len() as int
    }
}

/// Trimming takes whitespace away at the two ends and nothing else: of a text that is whitespace,
/// then something that neither begins nor ends with any, then whitespace, that something is left.
pub proof fn law_trim_leaves_the_middle(a: Seq<char>, s: Seq<char>, b: Seq<char>)
    requires
        forall|i: int| 0 <= i < a.len() ==> white(#[trigger] a[i]),
        forall|i: int| 0 <= i < b.len() ==> white(#[trigger] b[i]),
        s.len() > 0 ==> !white(s[0]) && !white(s.last()),
    ensures
        trimmed(a + s + b) == s,
        s.len() > 0 ==> trimmed_end(a + s + b) == a + s,
{
    let all = a + s + b;
    let i = lemma_start_trimmed(all);
    let j = lemma_end_trimmed(all);
    let rest = all.skip(i);
    let k = lemma_end_trimmed(rest);
    if s.len() > 0 {
        assert(all[a.len() as int] == s[0]);
        assert(i <= a.len());
        if i < a.len() {
            assert(all[i] == a[i]);
        }
        assert(all[a.len() + s.len() - 1] == s.last());
        if k < s.len() {
            assert(rest[s.len() - 1] == s.last());
        }
        if k > s.len() {
            assert(rest[k - 1] == b[k - 1 - s.len()]);
        }
        assert(rest.take(k) =~= s);
        if j < a.len() + s.len() {
            assert(white(all[a.len() + s.len() - 1]));
        }
        if j > a.len() + s.len() {
            assert(all[j - 1] == b[j - 1 - a.len() - s.len()]);
        }
        assert(all.take(j) =~= a + s);
    } else {
        if i < all.len() {
            if i < a.len() {
                assert(all[i] == a[i]);
            } else {
                assert(all[i] == b[i - a.len()]);
            }
        }
        assert(rest.take(k) =~= s);
    }
}

/// Texts joined are their parts with the separator between each two: one is itself, and what was
/// joined in two lots is joined once more with the separator between.
pub proof fn law_join_in_lots(a: Seq<Seq<char>>, b: Seq<Seq<char>>, x: Seq<char>, sep: Seq<char>)
    requires
        a.len() > 0,
        b.len() > 0,
    ensures
        joined(seq![x], sep) == x,
        joined(a + b, sep) == joined(a, sep) + sep + joined(b, sep),
    decreases b.len(),
{
    let all = a + b;
    if b.len() == 1 {
        assert(all.drop_last() =~= a);
        assert(joined(all, sep) =~= joined(a, sep) + sep + joined(b, sep));
    } else {
        law_join_in_lots(a, b.drop_last(), x, sep);
        assert(all.drop_last() =~= a + b.drop_last());
        assert(joined(all, sep) =~= joined(a, sep) + sep + joined(b, sep));
    }
}

} // verus!
