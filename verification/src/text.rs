//! Character-level string handling shared by the parsers.
//!
//! Strings are handled as sequences of Unicode scalar values (`Seq<char>`),
//! which is what `&str` and `String` view to. The standard library's string
//! helpers that the parsers rely on (`trim`, `lines`, `split_whitespace`,
//! `split`, `starts_with`, ...) are stated here as spec functions and
//! implemented over character vectors.

use vstd::prelude::*;

verus! {

broadcast use vstd::string::group_string_axioms;

// ---------------------------------------------------------------------------
// Trusted character and string classification from `std`.
// ---------------------------------------------------------------------------

/// What `char::is_whitespace` answers for a character (the Unicode
/// `White_Space` property).
pub uninterp spec fn char_is_whitespace(c: char) -> bool;

/// What `char::is_alphanumeric` answers for a character (Unicode
/// `Alphabetic` or `Numeric`).
pub uninterp spec fn char_is_alphanumeric(c: char) -> bool;

/// What `str::to_lowercase` returns for a string.
pub uninterp spec fn str_to_lowercase(s: Seq<char>) -> Seq<char>;

/// The ASCII whitespace characters: tab, line feed, vertical tab, form feed,
/// carriage return and space.
pub open spec fn is_ascii_whitespace_char(c: char) -> bool {
    c == '\t' || c == '\n' || c == '\u{0b}' || c == '\u{0c}' || c == '\r' || c == ' '
}

pub open spec fn is_ascii_alphanumeric_char(c: char) -> bool {
    ('a' <= c && c <= 'z') || ('A' <= c && c <= 'Z') || ('0' <= c && c <= '9')
}

/// Lowercase of one ASCII character.
pub open spec fn ascii_lower(c: char) -> char {
    if 'A' <= c && c <= 'Z' {
        ((c as u32) + 32) as char
    } else {
        c
    }
}

/// What `char::is_whitespace` answers: for an ASCII character, whether it is
/// one of the six ASCII whitespace characters; for any other, the named
/// Unicode property.
pub open spec fn whitespace(c: char) -> bool {
    if (c as u32) < 128 {
        is_ascii_whitespace_char(c)
    } else {
        char_is_whitespace(c)
    }
}

/// Calls `char::is_whitespace`. Claims that the answer is the named property
/// of `c` and, for an ASCII character, that it holds exactly of the six ASCII
/// whitespace characters, as the Unicode `White_Space` table lists them.
#[verifier::external_body]
pub(crate) fn is_whitespace(c: char) -> (r: bool)
    ensures
        r == char_is_whitespace(c),
        (c as u32) < 128 ==> (r <==> is_ascii_whitespace_char(c)),
{
    c.is_whitespace()
}

/// Calls `char::is_alphanumeric`. Claims that the answer is the named
/// property of `c` and, for an ASCII character, that it holds exactly of the
/// ASCII letters and digits.
#[verifier::external_body]
pub(crate) fn is_alphanumeric(c: char) -> (r: bool)
    ensures
        r == char_is_alphanumeric(c),
        (c as u32) < 128 ==> (r <==> is_ascii_alphanumeric_char(c)),
{
    c.is_alphanumeric()
}

/// What `str::to_lowercase` returns: for an ASCII string, the character-wise
/// ASCII lowercase; for any other, the named result.
pub open spec fn lowercase(s: Seq<char>) -> Seq<char> {
    if vstd::utf8::is_ascii_chars(s) {
        s.map_values(|c: char| ascii_lower(c))
    } else {
        str_to_lowercase(s)
    }
}

/// Calls `str::to_lowercase` on the string made of `s`. Claims that the
/// result is the named lowercase of `s` and that, for an ASCII string, it is
/// the character-wise ASCII lowercase (Unicode maps `A`..`Z` to `a`..`z` and
/// leaves every other ASCII character alone).
#[verifier::external_body]
pub(crate) fn to_lowercase(s: &Vec<char>) -> (r: Vec<char>)
    ensures
        r@ == str_to_lowercase(s@),
        vstd::utf8::is_ascii_chars(s@) ==> r@ == s@.map_values(|c: char| ascii_lower(c)),
{
    s.iter().collect::<String>().to_lowercase().chars().collect()
}

/// Calls `String::from_iter` on the characters of `s`. Claims that the string
/// holds exactly these characters.
#[verifier::external_body]
pub(crate) fn string_of(s: &Vec<char>) -> (r: String)
    ensures
        r@ == s@,
{
    s.iter().collect::<String>()
}

/// The view of an optional character vector.
pub open spec fn opt_chars(o: Option<Vec<char>>) -> Option<Seq<char>> {
    match o {
        Some(v) => Some(v@),
        None => None,
    }
}

/// The views of a sequence of strings.
pub open spec fn views(v: Seq<String>) -> Seq<Seq<char>> {
    v.map_values(|s: String| s@)
}

/// The views of a sequence of character vectors.
pub open spec fn char_views(v: Seq<Vec<char>>) -> Seq<Seq<char>> {
    v.map_values(|s: Vec<char>| s@)
}

// ---------------------------------------------------------------------------
// Conversions.
// ---------------------------------------------------------------------------

/// Collects the characters of `s` into a vector.
pub fn chars_of(s: &str) -> (r: Vec<char>)
    ensures
        r@ == s@,
{
    let mut r: Vec<char> = Vec::new();
    for c in it: s.chars()
        invariant
            it.seq() == s@,
            r@ == it.seq().take(it.index() as int),
    {
        r.push(c);
    }
    r
}

/// The characters of `v` from `start` (inclusive) to `end` (exclusive).
pub fn slice_chars(v: &Vec<char>, start: usize, end: usize) -> (r: Vec<char>)
    requires
        start <= end <= v.len(),
    ensures
        r@ == v@.subrange(start as int, end as int),
{
    let mut r: Vec<char> = Vec::new();
    let mut i = start;
    while i < end
        invariant
            start <= i <= end <= v.len(),
            r@ == v@.subrange(start as int, i as int),
        decreases end - i,
    {
        r.push(v[i]);
        i += 1;
    }
    r
}

/// `a` followed by `b`.
pub fn concat_chars(a: &Vec<char>, b: &Vec<char>) -> (r: Vec<char>)
    ensures
        r@ == a@ + b@,
{
    let mut r: Vec<char> = Vec::new();
    let mut i: usize = 0;
    while i < a.len()
        invariant
            i <= a.len(),
            r@ == a@.take(i as int),
        decreases a.len() - i,
    {
        r.push(a[i]);
        i += 1;
    }
    let mut j: usize = 0;
    while j < b.len()
        invariant
            j <= b.len(),
            r@ == a@ + b@.take(j as int),
        decreases b.len() - j,
    {
        r.push(b[j]);
        j += 1;
    }
    r
}

/// The characters of a string literal or other `&str`.
pub fn lit(s: &str) -> (r: Vec<char>)
    ensures
        r@ == s@,
{
    chars_of(s)
}

// ---------------------------------------------------------------------------
// Prefixes, suffixes, membership.
// ---------------------------------------------------------------------------

pub open spec fn has_prefix(s: Seq<char>, p: Seq<char>) -> bool {
    p.len() <= s.len() && s.take(p.len() as int) == p
}

pub open spec fn has_suffix(s: Seq<char>, p: Seq<char>) -> bool {
    p.len() <= s.len() && s.skip(s.len() - p.len()) == p
}

/// `str::contains` with a string pattern: `p` occurs in `s` at some offset.
pub open spec fn has_infix(s: Seq<char>, p: Seq<char>) -> bool {
    exists|k: int| 0 <= k && k + p.len() <= s.len() && #[trigger] s.subrange(k, k + p.len()) == p
}

pub fn starts_with(s: &Vec<char>, p: &Vec<char>) -> (r: bool)
    ensures
        r == has_prefix(s@, p@),
{
    if p.len() > s.len() {
        return false;
    }
    let mut i: usize = 0;
    while i < p.len()
        invariant
            p.len() <= s.len(),
            i <= p.len(),
            forall|k: int| 0 <= k < i ==> s@[k] == p@[k],
        decreases p.len() - i,
    {
        if s[i] != p[i] {
            assert(s@.take(p.len() as int)[i as int] != p@[i as int]);
            return false;
        }
        i += 1;
    }
    assert(s@.take(p.len() as int) =~= p@);
    true
}

pub fn ends_with(s: &Vec<char>, p: &Vec<char>) -> (r: bool)
    ensures
        r == has_suffix(s@, p@),
{
    if p.len() > s.len() {
        return false;
    }
    let off = s.len() - p.len();
    let mut i: usize = 0;
    while i < p.len()
        invariant
            p.len() <= s.len(),
            off == s.len() - p.len(),
            i <= p.len(),
            forall|k: int| 0 <= k < i ==> s@[off + k] == p@[k],
        decreases p.len() - i,
    {
        if s[off + i] != p[i] {
            assert(s@.skip(off as int)[i as int] != p@[i as int]);
            return false;
        }
        i += 1;
    }
    assert(s@.skip(off as int) =~= p@);
    true
}

/// Whether `p` occurs somewhere in `s`.
pub fn contains_chars(s: &Vec<char>, p: &Vec<char>) -> (r: bool)
    ensures
        r == has_infix(s@, p@),
{
    if p.len() > s.len() {
        assert forall|k: int| 0 <= k && k + p@.len() <= s@.len() implies #[trigger] s@.subrange(
            k,
            k + p@.len(),
        ) != p@ by {}
        return false;
    }
    if p.len() == 0 {
        assert(s@.subrange(0, 0int + p@.len()) =~= p@);
        return true;
    }
    let last = s.len() - p.len();
    let mut k: usize = 0;
    while k <= last
        invariant
            0 < p.len() <= s.len(),
            last == s.len() - p.len(),
            k <= last + 1,
            forall|j: int| 0 <= j < k ==> #[trigger] s@.subrange(j, j + p@.len()) != p@,
        decreases last + 1 - k,
    {
        let mut i: usize = 0;
        let mut same = true;
        while i < p.len()
            invariant
                p.len() <= s.len(),
                k <= last,
                last == s.len() - p.len(),
                i <= p.len(),
                same ==> forall|m: int| 0 <= m < i ==> s@[k + m] == p@[m],
                !same ==> s@.subrange(k as int, k + p@.len()) != p@,
            decreases p.len() - i,
        {
            if same && s[k + i] != p[i] {
                assert(s@.subrange(k as int, k + p@.len())[i as int] != p@[i as int]);
                same = false;
            }
            i += 1;
        }
        if same {
            assert(s@.subrange(k as int, k + p@.len()) =~= p@);
            return true;
        }
        k += 1;
    }
    false
}

pub fn contains_char(s: &Vec<char>, c: char) -> (r: bool)
    ensures
        r == s@.contains(c),
{
    let mut i: usize = 0;
    while i < s.len()
        invariant
            i <= s.len(),
            forall|k: int| 0 <= k < i ==> s@[k] != c,
        decreases s.len() - i,
    {
        if s[i] == c {
            return true;
        }
        i += 1;
    }
    false
}

pub fn eq_chars(a: &Vec<char>, b: &Vec<char>) -> (r: bool)
    ensures
        r == (a@ == b@),
{
    if a.len() != b.len() {
        return false;
    }
    let mut i: usize = 0;
    while i < a.len()
        invariant
            a.len() == b.len(),
            i <= a.len(),
            forall|k: int| 0 <= k < i ==> a@[k] == b@[k],
        decreases a.len() - i,
    {
        if a[i] != b[i] {
            return false;
        }
        i += 1;
    }
    assert(a@ =~= b@);
    true
}

// ---------------------------------------------------------------------------
// Trimming.
// ---------------------------------------------------------------------------

/// `str::trim_start`: drops leading whitespace.
pub open spec fn trim_start(s: Seq<char>) -> Seq<char>
    decreases s.len(),
{
    if s.len() > 0 && whitespace(s[0]) {
        trim_start(s.drop_first())
    } else {
        s
    }
}

/// `str::trim_end`: drops trailing whitespace.
pub open spec fn trim_end(s: Seq<char>) -> Seq<char>
    decreases s.len(),
{
    if s.len() > 0 && whitespace(s.last()) {
        trim_end(s.drop_last())
    } else {
        s
    }
}

/// `str::trim`: drops leading and trailing whitespace.
pub open spec fn trim(s: Seq<char>) -> Seq<char> {
    trim_end(trim_start(s))
}

pub fn trim_chars(s: &Vec<char>) -> (r: Vec<char>)
    ensures
        r@ == trim(s@),
{
    let mut i: usize = 0;
    assert(s@.skip(0) =~= s@);
    while i < s.len() && is_whitespace(s[i])
        invariant
            i <= s.len(),
            trim_start(s@) == trim_start(s@.skip(i as int)),
        decreases s.len() - i,
    {
        assert(s@.skip(i as int).drop_first() =~= s@.skip(i + 1));
        i += 1;
    }
    let ghost t = s@.skip(i as int);
    assert(trim_start(s@) == t);
    let mut j: usize = s.len();
    assert(t.take(t.len() as int) =~= t);
    while j > i && is_whitespace(s[j - 1])
        invariant
            i <= j <= s.len(),
            t == s@.skip(i as int),
            trim_end(t) == trim_end(t.take(j - i)),
        decreases j,
    {
        assert(t.take(j - i).drop_last() =~= t.take(j - 1 - i));
        j -= 1;
    }
    assert(t.take(j - i) =~= s@.subrange(i as int, j as int));
    slice_chars(s, i, j)
}

// ---------------------------------------------------------------------------
// Splitting.
// ---------------------------------------------------------------------------

/// `str::split` on a character, with `cur` the piece gathered so far.
pub open spec fn split_from(s: Seq<char>, sep: char, cur: Seq<char>) -> Seq<Seq<char>>
    decreases s.len(),
{
    if s.len() == 0 {
        seq![cur]
    } else if s[0] == sep {
        seq![cur] + split_from(s.drop_first(), sep, seq![])
    } else {
        split_from(s.drop_first(), sep, cur.push(s[0]))
    }
}

/// `str::split` on a character: the pieces between separators (always at
/// least one piece).
pub open spec fn split(s: Seq<char>, sep: char) -> Seq<Seq<char>> {
    split_from(s, sep, seq![])
}

/// The text before the first `sep` (all of `s` when it holds none); this is
/// `s.split(sep).next()`.
pub open spec fn before_char(s: Seq<char>, sep: char) -> Seq<char>
    decreases s.len(),
{
    if s.len() == 0 || s[0] == sep {
        seq![]
    } else {
        seq![s[0]] + before_char(s.drop_first(), sep)
    }
}

/// Drops one trailing carriage return.
pub open spec fn strip_cr(s: Seq<char>) -> Seq<char> {
    if s.len() > 0 && s.last() == '\r' {
        s.drop_last()
    } else {
        s
    }
}

/// `str::lines`: pieces between line feeds; a piece that ends in a line
/// feed loses one trailing carriage return; a final empty piece is not a
/// line.
pub open spec fn lines(s: Seq<char>) -> Seq<Seq<char>> {
    let p = split(s, '\n');
    let n: int = if p.last().len() == 0 { p.len() - 1 } else { p.len() as int };
    Seq::new(n as nat, |i: int| if i < p.len() - 1 { strip_cr(p[i]) } else { p[i] })
}

/// `str::split_whitespace`, with `cur` the word gathered so far.
pub open spec fn words_from(s: Seq<char>, cur: Seq<char>) -> Seq<Seq<char>>
    decreases s.len(),
{
    if s.len() == 0 {
        if cur.len() > 0 {
            seq![cur]
        } else {
            seq![]
        }
    } else if whitespace(s[0]) {
        (if cur.len() > 0 {
            seq![cur]
        } else {
            Seq::<Seq<char>>::empty()
        }) + words_from(s.drop_first(), seq![])
    } else {
        words_from(s.drop_first(), cur.push(s[0]))
    }
}

/// `str::split_whitespace`: the maximal runs of non-whitespace characters.
pub open spec fn words(s: Seq<char>) -> Seq<Seq<char>> {
    words_from(s, seq![])
}

/// The pieces of `s` between occurrences of `sep`.
pub fn split_chars(s: &Vec<char>, sep: char) -> (r: Vec<Vec<char>>)
    ensures
        r@.map_values(|v: Vec<char>| v@) == split(s@, sep),
{
    let mut r: Vec<Vec<char>> = Vec::new();
    let mut cur: Vec<char> = Vec::new();
    let mut i: usize = 0;
    assert(s@.skip(0) =~= s@);
    while i < s.len()
        invariant
            i <= s.len(),
            split(s@, sep) == r@.map_values(|v: Vec<char>| v@) + split_from(
                s@.skip(i as int),
                sep,
                cur@,
            ),
        decreases s.len() - i,
    {
        assert(s@.skip(i as int).drop_first() =~= s@.skip(i + 1));
        let c = s[i];
        if c == sep {
            let ghost before = r@.map_values(|v: Vec<char>| v@);
            let piece = cur;
            r.push(piece);
            cur = Vec::new();
            assert(r@.map_values(|v: Vec<char>| v@) =~= before.push(piece@));
            assert(cur@ =~= Seq::<char>::empty());
            assert(before + (seq![piece@] + split_from(s@.skip(i + 1), sep, seq![])) =~= before.push(
                piece@,
            ) + split_from(s@.skip(i + 1), sep, seq![]));
        } else {
            cur.push(c);
        }
        i += 1;
    }
    let ghost before = r@.map_values(|v: Vec<char>| v@);
    assert(s@.skip(i as int) =~= Seq::<char>::empty());
    let piece = cur;
    r.push(piece);
    assert(r@.map_values(|v: Vec<char>| v@) =~= before + seq![piece@]);
    r
}

/// The text before the first occurrence of `sep` in `s`.
pub fn before_char_chars(s: &Vec<char>, sep: char) -> (r: Vec<char>)
    ensures
        r@ == before_char(s@, sep),
{
    let mut r: Vec<char> = Vec::new();
    let mut i: usize = 0;
    assert(s@.skip(0) =~= s@);
    while i < s.len() && s[i] != sep
        invariant
            i <= s.len(),
            before_char(s@, sep) == r@ + before_char(s@.skip(i as int), sep),
        decreases s.len() - i,
    {
        assert(s@.skip(i as int).drop_first() =~= s@.skip(i + 1));
        let ghost old_r = r@;
        r.push(s[i]);
        assert(old_r + (seq![s@[i as int]] + before_char(s@.skip(i + 1), sep)) =~= r@
            + before_char(s@.skip(i + 1), sep));
        i += 1;
    }
    assert(before_char(s@.skip(i as int), sep) =~= Seq::<char>::empty());
    assert(r@ + Seq::<char>::empty() =~= r@);
    r
}

fn strip_cr_chars(s: Vec<char>) -> (r: Vec<char>)
    ensures
        r@ == strip_cr(s@),
{
    let mut s = s;
    if s.len() > 0 && s[s.len() - 1] == '\r' {
        s.pop();
    }
    s
}

/// The lines of `s`, as `str::lines` cuts them.
pub fn lines_chars(s: &Vec<char>) -> (r: Vec<Vec<char>>)
    ensures
        r@.map_values(|v: Vec<char>| v@) == lines(s@),
{
    let pieces = split_chars(s, '\n');
    let ghost p = split(s@, '\n');
    assert(pieces@.len() == p.len());
    assert(p.len() >= 1) by {
        lemma_split_from_nonempty(s@, '\n', seq![]);
    }
    let n: usize = if pieces[pieces.len() - 1].len() == 0 {
        pieces.len() - 1
    } else {
        pieces.len()
    };
    assert(pieces@[pieces@.len() - 1]@ == p.last());
    let mut r: Vec<Vec<char>> = Vec::new();
    let mut i: usize = 0;
    while i < n
        invariant
            n <= pieces.len(),
            pieces@.map_values(|v: Vec<char>| v@) == p,
            p.len() == pieces.len(),
            n == (if p.last().len() == 0 { p.len() - 1 } else { p.len() as int }),
            i <= n,
            r@.len() == i,
            forall|k: int|
                0 <= k < i ==> #[trigger] r@[k]@ == (if k < p.len() - 1 {
                    strip_cr(p[k])
                } else {
                    p[k]
                }),
        decreases n - i,
    {
        let piece = slice_chars(&pieces[i], 0, pieces[i].len());
        assert(pieces@[i as int]@ == p[i as int]);
        assert(piece@ =~= p[i as int]);
        if i < pieces.len() - 1 {
            r.push(strip_cr_chars(piece));
        } else {
            r.push(piece);
        }
        i += 1;
    }
    assert(r@.map_values(|v: Vec<char>| v@) =~= lines(s@));
    r
}

pub proof fn lemma_split_from_nonempty(s: Seq<char>, sep: char, cur: Seq<char>)
    ensures
        split_from(s, sep, cur).len() >= 1,
    decreases s.len(),
{
    if s.len() > 0 {
        if s[0] == sep {
            lemma_split_from_nonempty(s.drop_first(), sep, seq![]);
        } else {
            lemma_split_from_nonempty(s.drop_first(), sep, cur.push(s[0]));
        }
    }
}

/// Without a separator in `x`, splitting `x` only extends the piece in
/// progress.
pub proof fn lemma_split_from_no_sep(x: Seq<char>, sep: char, cur: Seq<char>)
    requires
        !x.contains(sep),
    ensures
        split_from(x, sep, cur) == seq![cur + x],
    decreases x.len(),
{
    if x.len() == 0 {
        assert(cur + x =~= cur);
    } else {
        assert(x[0] != sep);
        assert(!x.drop_first().contains(sep)) by {
            if x.drop_first().contains(sep) {
                let k = choose|k: int| 0 <= k < x.drop_first().len() && x.drop_first()[k] == sep;
                assert(x[k + 1] == sep);
            }
        }
        lemma_split_from_no_sep(x.drop_first(), sep, cur.push(x[0]));
        assert(cur.push(x[0]) + x.drop_first() =~= cur + x);
    }
}

/// Splitting `x`, a separator and `y` gives the pieces of `x` followed by
/// those of `y`.
pub proof fn lemma_split_from_concat(x: Seq<char>, y: Seq<char>, sep: char, cur: Seq<char>)
    ensures
        split_from(x + seq![sep] + y, sep, cur) == split_from(x, sep, cur) + split(y, sep),
    decreases x.len(),
{
    let t = x + seq![sep] + y;
    if x.len() == 0 {
        assert(t.drop_first() =~= y);
        assert(seq![cur] + split(y, sep) =~= split_from(x, sep, cur) + split(y, sep));
    } else {
        assert(t[0] == x[0]);
        assert(t.drop_first() =~= x.drop_first() + seq![sep] + y);
        if x[0] == sep {
            lemma_split_from_concat(x.drop_first(), y, sep, seq![]);
            assert(seq![cur] + (split_from(x.drop_first(), sep, seq![]) + split(y, sep))
                =~= (seq![cur] + split_from(x.drop_first(), sep, seq![])) + split(y, sep));
        } else {
            lemma_split_from_concat(x.drop_first(), y, sep, cur.push(x[0]));
        }
    }
}

/// Lines of `a`, a line feed and `b`: the lines of `a` (the last of them
/// with a carriage return at its end stripped, since the line feed now ends
/// it), an empty line where `a` ended in a line feed of its own (or was
/// empty), then the lines of `b`.
pub proof fn lemma_lines_join(a: Seq<char>, b: Seq<char>)
    ensures
        lines(a + seq!['\n'] + b) == (if split(a, '\n').last().len() == 0 {
            lines(a).push(Seq::<char>::empty())
        } else {
            lines(a).drop_last().push(strip_cr(split(a, '\n').last()))
        }) + lines(b),
{
    let pa = split(a, '\n');
    let pb = split(b, '\n');
    lemma_split_from_concat(a, b, '\n', seq![]);
    lemma_split_from_nonempty(a, '\n', seq![]);
    lemma_split_from_nonempty(b, '\n', seq![]);
    let p = pa + pb;
    assert(split(a + seq!['\n'] + b, '\n') == p);
    assert(p.last() == pb.last());
    let head = if pa.last().len() == 0 {
        lines(a).push(Seq::<char>::empty())
    } else {
        lines(a).drop_last().push(strip_cr(pa.last()))
    };
    let lhs = lines(a + seq!['\n'] + b);
    let rhs = head + lines(b);
    assert(head.len() == pa.len());
    assert(lhs.len() == rhs.len());
    assert forall|i: int| 0 <= i < lhs.len() implies lhs[i] == rhs[i] by {
        if i < pa.len() {
            assert(p[i] == pa[i]);
            assert(rhs[i] == head[i]);
            if i < pa.len() - 1 {
                assert(head[i] == lines(a)[i]);
            }
        } else {
            let j = i - pa.len();
            assert(p[i] == pb[j]);
            assert(rhs[i] == lines(b)[j]);
        }
    }
    assert(lhs =~= rhs);
}

/// Dropping one leading-side step: a text whose last character is
/// whitespace loses that character when its leading whitespace goes, unless
/// nothing is left of either.
proof fn lemma_trim_start_drop_ws(s: Seq<char>)
    requires
        s.len() > 0,
        whitespace(s.last()),
    ensures
        (trim_start(s).len() == 0 && trim_start(s.drop_last()).len() == 0) || trim_start(s) == trim_start(
            s.drop_last(),
        ).push(s.last()),
    decreases s.len(),
{
    if whitespace(s[0]) {
        if s.len() > 1 {
            let t = s.drop_first();
            assert(t.last() == s.last());
            lemma_trim_start_drop_ws(t);
            assert(trim_start(s) == trim_start(t));
            assert(s.drop_last()[0] == s[0]);
            assert(s.drop_last().drop_first() =~= t.drop_last());
            assert(trim_start(s.drop_last()) == trim_start(s.drop_last().drop_first()));
            assert(trim_start(s.drop_last()) == trim_start(t.drop_last()));
        } else {
            assert(s.drop_first().len() == 0);
            assert(trim_start(s) == trim_start(s.drop_first()));
            assert(s.drop_last().len() == 0);
        }
    } else {
        assert(s.len() > 1);
        assert(trim_start(s) == s);
        assert(s.drop_last()[0] == s[0]);
        assert(trim_start(s.drop_last()) == s.drop_last());
        assert(s.drop_last().push(s.last()) =~= s);
    }
}

/// Trimming ignores a trailing whitespace character.
pub proof fn lemma_trim_drop_ws(s: Seq<char>)
    requires
        s.len() > 0,
        whitespace(s.last()),
    ensures
        trim(s) == trim(s.drop_last()),
{
    lemma_trim_start_drop_ws(s);
    let x = trim_start(s);
    if x.len() == 0 {
        assert(trim_start(s.drop_last()).len() == 0);
    } else {
        let y = trim_start(s.drop_last());
        assert(x.drop_last() =~= y);
        assert(x.last() == s.last());
    }
}

/// Trimming a line ignores a carriage return at its end.
pub proof fn lemma_trim_strip_cr(s: Seq<char>)
    ensures
        trim(strip_cr(s)) == trim(s),
{
    if s.len() > 0 && s.last() == '\r' {
        assert(whitespace('\r'));
        lemma_trim_drop_ws(s);
    }
}

/// The whitespace-separated words of `s`.
pub fn words_chars(s: &Vec<char>) -> (r: Vec<Vec<char>>)
    ensures
        r@.map_values(|v: Vec<char>| v@) == words(s@),
{
    let mut r: Vec<Vec<char>> = Vec::new();
    let mut cur: Vec<char> = Vec::new();
    let mut i: usize = 0;
    assert(s@.skip(0) =~= s@);
    while i < s.len()
        invariant
            i <= s.len(),
            words(s@) == r@.map_values(|v: Vec<char>| v@) + words_from(s@.skip(i as int), cur@),
        decreases s.len() - i,
    {
        assert(s@.skip(i as int).drop_first() =~= s@.skip(i + 1));
        let c = s[i];
        if is_whitespace(c) {
            let ghost before = r@.map_values(|v: Vec<char>| v@);
            if cur.len() > 0 {
                let piece = cur;
                r.push(piece);
                assert(r@.map_values(|v: Vec<char>| v@) =~= before.push(piece@));
                assert(before + (seq![piece@] + words_from(s@.skip(i + 1), seq![]))
                    =~= before.push(piece@) + words_from(s@.skip(i + 1), seq![]));
            } else {
                assert(before + (Seq::<Seq<char>>::empty() + words_from(s@.skip(i + 1), seq![]))
                    =~= before + words_from(s@.skip(i + 1), seq![]));
            }
            cur = Vec::new();
            assert(cur@ =~= Seq::<char>::empty());
        } else {
            cur.push(c);
        }
        i += 1;
    }
    let ghost before = r@.map_values(|v: Vec<char>| v@);
    assert(s@.skip(i as int) =~= Seq::<char>::empty());
    if cur.len() > 0 {
        let piece = cur;
        r.push(piece);
        assert(r@.map_values(|v: Vec<char>| v@) =~= before + seq![piece@]);
    } else {
        assert(before + Seq::<Seq<char>>::empty() =~= before);
    }
    r
}

// ---------------------------------------------------------------------------
// Joining.
// ---------------------------------------------------------------------------

/// `[String]::join`: the parts with `sep` between each two.
pub open spec fn spec_join(parts: Seq<Seq<char>>, sep: Seq<char>) -> Seq<char>
    decreases parts.len(),
{
    if parts.len() == 0 {
        seq![]
    } else if parts.len() == 1 {
        parts[0]
    } else {
        spec_join(parts.drop_last(), sep) + sep + parts.last()
    }
}

pub fn join_strings(parts: &Vec<String>, sep: &str) -> (r: String)
    ensures
        r@ == spec_join(views(parts@), sep@),
{
    let mut out = String::new();
    let mut i: usize = 0;
    while i < parts.len()
        invariant
            i <= parts.len(),
            out@ == spec_join(views(parts@).take(i as int), sep@),
        decreases parts.len() - i,
    {
        let ghost vs = views(parts@);
        assert(vs.take(i + 1).drop_last() =~= vs.take(i as int));
        if i > 0 {
            out.append(sep);
        } else {
            assert(vs.take(0) =~= Seq::<Seq<char>>::empty());
            assert(out@ =~= Seq::<char>::empty());
        }
        out.append(parts[i].as_str());
        i += 1;
    }
    assert(views(parts@).take(parts.len() as int) =~= views(parts@));
    out
}

// ---------------------------------------------------------------------------
// ASCII case.
// ---------------------------------------------------------------------------

/// `str::eq_ignore_ascii_case` stated on characters: equal lengths and
/// equal characters once ASCII letters are lowercased. (On UTF-8 bytes this
/// is the same test: an ASCII byte only ever equals an ASCII byte, so the
/// characters line up.)
pub open spec fn eq_ignore_ascii_case(a: Seq<char>, b: Seq<char>) -> bool {
    a.len() == b.len() && forall|i: int| 0 <= i < a.len() ==> ascii_lower(#[trigger] a[i]) == ascii_lower(b[i])
}

fn lower_code(c: char) -> (r: u32)
    ensures
        r == ascii_lower(c) as u32,
{
    if 'A' <= c && c <= 'Z' {
        (c as u32) + 32
    } else {
        c as u32
    }
}

pub fn chars_eq_ignore_ascii_case(a: &Vec<char>, b: &Vec<char>) -> (r: bool)
    ensures
        r == eq_ignore_ascii_case(a@, b@),
{
    if a.len() != b.len() {
        return false;
    }
    let mut i: usize = 0;
    while i < a.len()
        invariant
            a.len() == b.len(),
            i <= a.len(),
            forall|k: int| 0 <= k < i ==> ascii_lower(#[trigger] a@[k]) == ascii_lower(b@[k]),
        decreases a.len() - i,
    {
        if lower_code(a[i]) != lower_code(b[i]) {
            return false;
        }
        i += 1;
    }
    true
}

// ---------------------------------------------------------------------------
// Decimal numbers.
// ---------------------------------------------------------------------------

pub open spec fn is_ascii_digit(c: char) -> bool {
    '0' <= c && c <= '9'
}

/// The number that a run of decimal digits writes.
pub open spec fn digits_value(s: Seq<char>) -> nat
    decreases s.len(),
{
    if s.len() == 0 {
        0
    } else {
        digits_value(s.drop_last()) * 10 + ((s.last() as u32) - ('0' as u32)) as nat
    }
}

/// `s` without one leading `+`.
pub open spec fn sign_stripped(s: Seq<char>) -> Seq<char> {
    if s.len() > 0 && s[0] == '+' {
        s.drop_first()
    } else {
        s
    }
}

/// `usize::from_str`: an optional `+`, then one or more ASCII digits whose
/// value fits a `usize`.
pub open spec fn spec_parse_usize(s: Seq<char>) -> Option<usize> {
    let d = sign_stripped(s);
    if d.len() > 0 && (forall|i: int| 0 <= i < d.len() ==> is_ascii_digit(#[trigger] d[i]))
        && digits_value(d) <= usize::MAX {
        Some(digits_value(d) as usize)
    } else {
        None
    }
}

proof fn lemma_digits_value_grows(d: Seq<char>, k: int)
    requires
        0 <= k <= d.len(),
        forall|i: int| 0 <= i < d.len() ==> is_ascii_digit(#[trigger] d[i]),
    ensures
        digits_value(d.take(k)) <= digits_value(d),
    decreases d.len() - k,
{
    if k < d.len() {
        lemma_digits_value_grows(d, k + 1);
        assert(d.take(k + 1).drop_last() =~= d.take(k));
    } else {
        assert(d.take(k) =~= d);
    }
}

/// Reads a `usize` written in decimal, as `str::parse::<usize>` does.
pub fn parse_usize(s: &Vec<char>) -> (r: Option<usize>)
    ensures
        r == spec_parse_usize(s@),
{
    let start: usize = if s.len() > 0 && s[0] == '+' {
        1
    } else {
        0
    };
    let ghost d = sign_stripped(s@);
    assert(d =~= s@.skip(start as int));
    if start == s.len() {
        assert(d.len() == 0);
        return None;
    }
    let mut i: usize = start;
    while i < s.len()
        invariant
            start <= i <= s.len(),
            d =~= s@.skip(start as int),
            d == sign_stripped(s@),
            forall|k: int| 0 <= k < i - start ==> is_ascii_digit(#[trigger] d[k]),
        decreases s.len() - i,
    {
        if !('0' <= s[i] && s[i] <= '9') {
            assert(!is_ascii_digit(d[i - start]));
            return None;
        }
        i += 1;
    }
    let mut v: usize = 0;
    let mut j: usize = start;
    assert(d.take(0) =~= Seq::<char>::empty());
    while j < s.len()
        invariant
            start <= j <= s.len(),
            d =~= s@.skip(start as int),
            d == sign_stripped(s@),
            forall|k: int| 0 <= k < d.len() ==> is_ascii_digit(#[trigger] d[k]),
            v == digits_value(d.take(j - start)),
        decreases s.len() - j,
    {
        let c = s[j];
        assert(d[j - start] == c);
        assert(is_ascii_digit(d[j - start]));
        let dig: usize = ((c as u32) - ('0' as u32)) as usize;
        assert(d.take(j + 1 - start).drop_last() =~= d.take(j - start));
        assert(d.take(j + 1 - start).last() == c);
        assert(digits_value(d.take(j + 1 - start)) == v * 10 + dig);
        match v.checked_mul(10) {
            Some(t) => match t.checked_add(dig) {
                Some(u) => {
                    v = u;
                },
                None => {
                    proof {
                        lemma_digits_value_grows(d, j + 1 - start);
                    }
                    return None;
                },
            },
            None => {
                proof {
                    lemma_digits_value_grows(d, j + 1 - start);
                }
                return None;
            },
        }
        j += 1;
    }
    assert(d.take(d.len() as int) =~= d);
    Some(v)
}

/// The ASCII digit of a number below ten.
pub open spec fn digit_char(d: nat) -> char {
    if d == 0 { '0' } else if d == 1 { '1' } else if d == 2 { '2' } else if d == 3 { '3' }
    else if d == 4 { '4' } else if d == 5 { '5' } else if d == 6 { '6' } else if d == 7 { '7' }
    else if d == 8 { '8' } else { '9' }
}

/// A number written in decimal, without leading zeros.
pub open spec fn spec_decimal(n: nat) -> Seq<char>
    decreases n,
{
    if n < 10 {
        seq![digit_char(n)]
    } else {
        spec_decimal(n / 10).push(digit_char(n % 10))
    }
}

fn digit_of(d: u64) -> (r: char)
    requires
        d < 10,
    ensures
        r == digit_char(d as nat),
{
    if d == 0 { '0' } else if d == 1 { '1' } else if d == 2 { '2' } else if d == 3 { '3' }
    else if d == 4 { '4' } else if d == 5 { '5' } else if d == 6 { '6' } else if d == 7 { '7' }
    else if d == 8 { '8' } else { '9' }
}

/// `n` written in decimal, as `format!("{}", n)` writes it.
pub fn decimal_string(n: u64) -> (r: String)
    ensures
        r@ == spec_decimal(n as nat),
{
    let mut rev: Vec<char> = Vec::new();
    let mut m: u64 = n;
    // Collect the digits from the lowest; `rev` read backwards is the
    // decimal of `n` once `m` is down to its first digit.
    while m >= 10
        invariant
            spec_decimal(n as nat) == spec_decimal(m as nat) + rev@.reverse(),
        decreases m,
    {
        let d = m % 10;
        let c = digit_of(d);
        let ghost before = rev@;
        rev.push(c);
        assert(spec_decimal(m as nat) == spec_decimal((m / 10) as nat).push(c));
        assert(rev@.reverse() =~= seq![c] + before.reverse());
        assert(spec_decimal((m / 10) as nat).push(c) + before.reverse() =~= spec_decimal(
            (m / 10) as nat,
        ) + (seq![c] + before.reverse()));
        m = m / 10;
    }
    let mut out: Vec<char> = Vec::new();
    out.push(digit_of(m));
    let mut i: usize = rev.len();
    while i > 0
        invariant
            i <= rev.len(),
            spec_decimal(n as nat) == spec_decimal(m as nat) + rev@.reverse(),
            m < 10,
            out@ == spec_decimal(m as nat) + rev@.subrange(i as int, rev@.len() as int).reverse(),
        decreases i,
    {
        let ghost before = out@;
        out.push(rev[i - 1]);
        assert(rev@.subrange(i - 1, rev@.len() as int).reverse() =~= rev@.subrange(
            i as int,
            rev@.len() as int,
        ).reverse().push(rev@[i - 1]));
        i -= 1;
    }
    assert(rev@.subrange(0, rev@.len() as int) =~= rev@);
    string_of(&out)
}

proof fn lemma_decimal_digits(n: nat)
    ensures
        spec_decimal(n).len() > 0,
        forall|i: int| 0 <= i < spec_decimal(n).len() ==> is_ascii_digit(#[trigger] spec_decimal(n)[i]),
        digits_value(spec_decimal(n)) == n,
    decreases n,
{
    assert(is_ascii_digit(digit_char(n % 10)) && digit_char(n % 10) as u32 - '0' as u32 == n % 10);
    if n < 10 {
        let t = seq![digit_char(n)];
        assert(t.drop_last() =~= Seq::<char>::empty());
        assert(t.last() == digit_char(n));
        assert(digits_value(t) == digits_value(t.drop_last()) * 10 + ((t.last() as u32) - ('0' as u32)) as nat);
        assert(n % 10 == n);
    } else {
        lemma_decimal_digits(n / 10);
        let s = spec_decimal(n / 10);
        let c = digit_char(n % 10);
        assert(spec_decimal(n) == s.push(c));
        assert(s.push(c).drop_last() =~= s);
        assert(s.push(c).last() == c);
        assert(digits_value(s.push(c)) == digits_value(s) * 10 + ((c as u32) - ('0' as u32)) as nat);
        assert(n == (n / 10) * 10 + n % 10) by (nonlinear_arith);
        assert forall|i: int| 0 <= i < s.push(c).len() implies is_ascii_digit(#[trigger] s.push(c)[i]) by {
            if i < s.len() {
                assert(s.push(c)[i] == s[i]);
            }
        }
    }
}

/// Reading back a number written in decimal gives the number.
pub proof fn law_decimal_reads_back(n: usize)
    ensures
        spec_parse_usize(spec_decimal(n as nat)) == Some(n),
{
    lemma_decimal_digits(n as nat);
    let s = spec_decimal(n as nat);
    assert(is_ascii_digit(s[0]));
    assert(sign_stripped(s) == s);
}

// ---------------------------------------------------------------------------
// UTF-8 length.
// ---------------------------------------------------------------------------

/// Bytes that UTF-8 spends on one character.
pub open spec fn utf8_width(c: char) -> nat {
    if (c as u32) < 0x80 {
        1
    } else if (c as u32) < 0x800 {
        2
    } else if (c as u32) < 0x10000 {
        3
    } else {
        4
    }
}

/// `str::len`: the length in bytes of the UTF-8 encoding.
pub open spec fn utf8_len(s: Seq<char>) -> nat
    decreases s.len(),
{
    if s.len() == 0 {
        0
    } else {
        utf8_len(s.drop_last()) + utf8_width(s.last())
    }
}

/// The UTF-8 length of `s`, or `None` once it passes `limit`.
pub fn utf8_len_up_to(s: &Vec<char>, limit: usize) -> (r: Option<usize>)
    ensures
        match r {
            Some(n) => n == utf8_len(s@) && n <= limit,
            None => utf8_len(s@) > limit,
        },
{
    let mut n: usize = 0;
    let mut i: usize = 0;
    while i < s.len()
        invariant
            i <= s.len(),
            n == utf8_len(s@.take(i as int)),
            n <= limit,
        decreases s.len() - i,
    {
        let c = s[i];
        let w: usize = if (c as u32) < 0x80 {
            1
        } else if (c as u32) < 0x800 {
            2
        } else if (c as u32) < 0x10000 {
            3
        } else {
            4
        };
        assert(s@.take(i + 1).drop_last() =~= s@.take(i as int));
        if w > limit - n {
            proof {
                lemma_utf8_len_prefix(s@, i + 1);
            }
            return None;
        }
        n = n + w;
        i += 1;
    }
    assert(s@.take(i as int) =~= s@);
    Some(n)
}

/// The UTF-8 length of a prefix never passes that of the whole.
pub proof fn lemma_utf8_len_prefix(s: Seq<char>, k: int)
    requires
        0 <= k <= s.len(),
    ensures
        utf8_len(s.take(k)) <= utf8_len(s),
    decreases s.len() - k,
{
    if k < s.len() {
        lemma_utf8_len_prefix(s, k + 1);
        assert(s.take(k + 1).drop_last() =~= s.take(k));
    } else {
        assert(s.take(k) =~= s);
    }
}

// ---------------------------------------------------------------------------
// ASCII lines: what stays true of them through splitting and trimming.
// ---------------------------------------------------------------------------

/// An ASCII text with no line feed in it.
pub open spec fn ascii_line(x: Seq<char>) -> bool {
    forall|i: int| 0 <= i < x.len() ==> '\0' <= #[trigger] x[i] <= '\u{7f}' && x[i] != '\n'
}

/// A text whose last character, if any, is not whitespace.
pub open spec fn ends_clean(x: Seq<char>) -> bool {
    x.len() > 0 ==> !whitespace(x.last())
}

proof fn lemma_split_from_ascii(s: Seq<char>, cur: Seq<char>)
    requires
        vstd::utf8::is_ascii_chars(s),
        ascii_line(cur),
    ensures
        forall|k: int| 0 <= k < split_from(s, '\n', cur).len() ==> ascii_line(#[trigger] split_from(s, '\n', cur)[k]),
    decreases s.len(),
{
    if s.len() > 0 {
        assert(vstd::utf8::is_ascii_chars(s.drop_first())) by {
            assert forall|i: int| 0 <= i < s.drop_first().len() implies '\0' <= #[trigger] s.drop_first()[i] <= '\u{7f}' by {
                assert(s.drop_first()[i] == s[i + 1]);
            }
        }
        if s[0] == '\n' {
            lemma_split_from_ascii(s.drop_first(), seq![]);
            let rest = split_from(s.drop_first(), '\n', seq![]);
            assert(split_from(s, '\n', cur) == seq![cur] + rest);
            assert forall|k: int| 0 <= k < split_from(s, '\n', cur).len() implies ascii_line(#[trigger] split_from(s, '\n', cur)[k]) by {
                if k == 0 {
                    assert(split_from(s, '\n', cur)[k] == cur);
                } else {
                    assert(split_from(s, '\n', cur)[k] == rest[k - 1]);
                }
            }
        } else {
            let c2 = cur.push(s[0]);
            assert(ascii_line(c2)) by {
                assert forall|i: int| 0 <= i < c2.len() implies '\0' <= #[trigger] c2[i] <= '\u{7f}' && c2[i] != '\n' by {
                    if i < cur.len() {
                        assert(c2[i] == cur[i]);
                    } else {
                        assert(c2[i] == s[0]);
                    }
                }
            }
            lemma_split_from_ascii(s.drop_first(), c2);
            assert(split_from(s, '\n', cur) == split_from(s.drop_first(), '\n', c2));
        }
    } else {
        assert(split_from(s, '\n', cur) == seq![cur]);
    }
}

/// Every line of an ASCII text is an ASCII line.
pub proof fn lemma_lines_ascii(s: Seq<char>)
    requires
        vstd::utf8::is_ascii_chars(s),
    ensures
        forall|k: int| 0 <= k < lines(s).len() ==> ascii_line(#[trigger] lines(s)[k]),
{
    lemma_split_from_ascii(s, seq![]);
    let p = split(s, '\n');
    lemma_split_from_nonempty(s, '\n', seq![]);
    assert forall|k: int| 0 <= k < lines(s).len() implies ascii_line(#[trigger] lines(s)[k]) by {
        assert(0 <= k < p.len());
        assert(ascii_line(p[k]));
        if k < p.len() - 1 && p[k].len() > 0 && p[k].last() == '\r' {
            assert forall|i: int| 0 <= i < p[k].drop_last().len() implies '\0' <= #[trigger] p[k].drop_last()[i] <= '\u{7f}' && p[k].drop_last()[i] != '\n' by {
                assert(p[k].drop_last()[i] == p[k][i]);
            }
        }
    }
}

/// A part of an ASCII line is an ASCII line.
pub proof fn lemma_subrange_ascii(x: Seq<char>, a: int, b: int)
    requires
        ascii_line(x),
        0 <= a <= b <= x.len(),
    ensures
        ascii_line(x.subrange(a, b)),
{
    assert forall|i: int| 0 <= i < x.subrange(a, b).len() implies '\0' <= #[trigger] x.subrange(a, b)[i] <= '\u{7f}' && x.subrange(a, b)[i] != '\n' by {
        assert(x.subrange(a, b)[i] == x[a + i]);
    }
}

proof fn lemma_trim_start_ascii(x: Seq<char>)
    requires
        ascii_line(x),
    ensures
        ascii_line(trim_start(x)),
        trim_start(x).len() > 0 ==> trim_start(x).last() == x.last(),
    decreases x.len(),
{
    if x.len() > 0 && whitespace(x[0]) {
        lemma_subrange_ascii(x, 1, x.len() as int);
        assert(x.subrange(1, x.len() as int) =~= x.drop_first());
        lemma_trim_start_ascii(x.drop_first());
    }
}

proof fn lemma_trim_end_ascii(x: Seq<char>)
    requires
        ascii_line(x),
    ensures
        ascii_line(trim_end(x)),
        ends_clean(trim_end(x)),
    decreases x.len(),
{
    if x.len() > 0 && whitespace(x.last()) {
        lemma_subrange_ascii(x, 0, x.len() - 1);
        assert(x.subrange(0, x.len() - 1) =~= x.drop_last());
        lemma_trim_end_ascii(x.drop_last());
    }
}

/// Trimming an ASCII line leaves an ASCII line that does not end in
/// whitespace.
pub proof fn lemma_trim_ascii(x: Seq<char>)
    requires
        ascii_line(x),
    ensures
        ascii_line(trim(x)),
        ends_clean(trim(x)),
{
    lemma_trim_start_ascii(x);
    lemma_trim_end_ascii(trim_start(x));
}

/// The text before the first `sep` of an ASCII line is an ASCII line.
pub proof fn lemma_before_char_ascii(x: Seq<char>, sep: char)
    requires
        ascii_line(x),
    ensures
        ascii_line(before_char(x, sep)),
    decreases x.len(),
{
    if x.len() > 0 && x[0] != sep {
        lemma_subrange_ascii(x, 1, x.len() as int);
        assert(x.subrange(1, x.len() as int) =~= x.drop_first());
        lemma_before_char_ascii(x.drop_first(), sep);
        let r = before_char(x.drop_first(), sep);
        assert forall|i: int| 0 <= i < (seq![x[0]] + r).len() implies '\0' <= #[trigger] (seq![x[0]] + r)[i] <= '\u{7f}' && (seq![x[0]] + r)[i] != '\n' by {
            if i > 0 {
                assert((seq![x[0]] + r)[i] == r[i - 1]);
            }
        }
    }
}

proof fn lemma_words_from_ascii(s: Seq<char>, cur: Seq<char>)
    requires
        ascii_line(s),
        ascii_line(cur),
        ends_clean(cur),
    ensures
        forall|k: int| 0 <= k < words_from(s, cur).len() ==> {
            let w = #[trigger] words_from(s, cur)[k];
            ascii_line(w) && w.len() > 0 && ends_clean(w)
        },
    decreases s.len(),
{
    if s.len() > 0 {
        lemma_subrange_ascii(s, 1, s.len() as int);
        assert(s.subrange(1, s.len() as int) =~= s.drop_first());
        if whitespace(s[0]) {
            lemma_words_from_ascii(s.drop_first(), seq![]);
            let rest = words_from(s.drop_first(), seq![]);
            let head = if cur.len() > 0 { seq![cur] } else { Seq::<Seq<char>>::empty() };
            assert forall|k: int| 0 <= k < words_from(s, cur).len() implies {
                let w = #[trigger] words_from(s, cur)[k];
                ascii_line(w) && w.len() > 0 && ends_clean(w)
            } by {
                assert(words_from(s, cur) == head + rest);
                if k < head.len() {
                    assert(words_from(s, cur)[k] == cur);
                } else {
                    assert(words_from(s, cur)[k] == rest[k - head.len()]);
                }
            }
        } else {
            let c2 = cur.push(s[0]);
            assert(ascii_line(c2)) by {
                assert forall|i: int| 0 <= i < c2.len() implies '\0' <= #[trigger] c2[i] <= '\u{7f}' && c2[i] != '\n' by {
                    if i < cur.len() {
                        assert(c2[i] == cur[i]);
                    }
                }
            }
            assert(c2.last() == s[0]);
            lemma_words_from_ascii(s.drop_first(), c2);
            assert(words_from(s, cur) == words_from(s.drop_first(), c2));
        }
    } else {
        assert(words_from(s, cur) == if cur.len() > 0 { seq![cur] } else { Seq::<Seq<char>>::empty() });
    }
}

/// The words of an ASCII line are non-empty ASCII lines that do not end in
/// whitespace.
pub proof fn lemma_words_ascii(s: Seq<char>)
    requires
        ascii_line(s),
    ensures
        forall|k: int| 0 <= k < words(s).len() ==> {
            let w = #[trigger] words(s)[k];
            ascii_line(w) && w.len() > 0 && ends_clean(w)
        },
{
    lemma_words_from_ascii(s, seq![]);
}

/// Lowercasing an ASCII line keeps it an ASCII line of the same length,
/// and keeps whether it ends in whitespace.
pub proof fn lemma_lowercase_ascii(x: Seq<char>)
    requires
        ascii_line(x),
    ensures
        ascii_line(lowercase(x)),
        lowercase(x).len() == x.len(),
        ends_clean(x) ==> ends_clean(lowercase(x)),
{
    assert(vstd::utf8::is_ascii_chars(x));
    let y = x.map_values(|c: char| ascii_lower(c));
    assert(lowercase(x) == y);
    assert forall|i: int| 0 <= i < y.len() implies '\0' <= #[trigger] y[i] <= '\u{7f}' && y[i] != '\n' by {
        assert(y[i] == ascii_lower(x[i]));
        assert('\0' <= x[i] <= '\u{7f}' && x[i] != '\n');
    }
    if x.len() > 0 && ends_clean(x) {
        assert(y.last() == ascii_lower(x.last()));
        assert('\0' <= x.last() <= '\u{7f}');
    }
}

// ---------------------------------------------------------------------------
// Words of texts whose whitespace is known.
// ---------------------------------------------------------------------------

/// A text without whitespace.
pub open spec fn no_whitespace(x: Seq<char>) -> bool {
    forall|i: int| 0 <= i < x.len() ==> !whitespace(#[trigger] x[i])
}

/// Words go on gathering through a text without whitespace.
pub proof fn lemma_words_from_gather(x: Seq<char>, y: Seq<char>, cur: Seq<char>)
    requires
        no_whitespace(x),
    ensures
        words_from(x + y, cur) == words_from(y, cur + x),
    decreases x.len(),
{
    if x.len() == 0 {
        assert(x + y =~= y);
        assert(cur + x =~= cur);
    } else {
        assert(!whitespace(x[0]));
        assert((x + y)[0] == x[0]);
        assert((x + y).drop_first() =~= x.drop_first() + y);
        assert(no_whitespace(x.drop_first())) by {
            assert forall|i: int| 0 <= i < x.drop_first().len() implies !whitespace(#[trigger] x.drop_first()[i]) by {
                assert(x.drop_first()[i] == x[i + 1]);
            }
        }
        lemma_words_from_gather(x.drop_first(), y, cur.push(x[0]));
        assert(cur.push(x[0]) + x.drop_first() =~= cur + x);
    }
}

/// The words of `w`, one whitespace character and `s`, where neither `w`
/// nor `s` holds whitespace and both are non-empty, are `w` and `s`.
pub proof fn lemma_two_words(w: Seq<char>, c: char, s: Seq<char>)
    requires
        no_whitespace(w),
        no_whitespace(s),
        w.len() > 0,
        s.len() > 0,
        whitespace(c),
    ensures
        words(w + seq![c] + s) == seq![w, s],
{
    let t = seq![c] + s;
    assert(w + seq![c] + s =~= w + t);
    lemma_words_from_gather(w, t, seq![]);
    assert(Seq::<char>::empty() + w =~= w);
    assert(t[0] == c);
    assert(t.drop_first() =~= s);
    lemma_words_from_gather(s, seq![], seq![]);
    assert(s + Seq::<char>::empty() =~= s);
    assert(Seq::<char>::empty() + s =~= s);
    assert(words_from(Seq::<char>::empty(), s) == seq![s]);
    assert(words_from(t, w) =~= seq![w] + seq![s]);
    assert(seq![w] + seq![s] =~= seq![w, s]);
}

proof fn lemma_split_join(parts: Seq<Seq<char>>, sep: char)
    requires
        parts.len() > 0,
        forall|i: int| 0 <= i < parts.len() ==> !(#[trigger] parts[i]).contains(sep),
    ensures
        split(spec_join(parts, seq![sep]), sep) == parts,
    decreases parts.len(),
{
    let last = parts.last();
    assert(!parts[parts.len() - 1].contains(sep));
    if parts.len() == 1 {
        lemma_split_from_no_sep(last, sep, seq![]);
        assert(Seq::<char>::empty() + last =~= last);
        assert(seq![last] =~= parts);
    } else {
        let init = parts.drop_last();
        assert forall|i: int| 0 <= i < init.len() implies !(#[trigger] init[i]).contains(sep) by {
            assert(init[i] == parts[i]);
        }
        lemma_split_join(init, sep);
        lemma_split_from_concat(spec_join(init, seq![sep]), last, sep, seq![]);
        lemma_split_from_no_sep(last, sep, seq![]);
        assert(Seq::<char>::empty() + last =~= last);
        assert(init + seq![last] =~= parts);
    }
}

/// Lines joined by line feeds, each ended by one, read back as the same
/// lines, when there is one at least and none holds a line feed or ends in
/// a carriage return.
pub proof fn lemma_lines_of_joined(parts: Seq<Seq<char>>)
    requires
        parts.len() > 0,
        forall|i: int| 0 <= i < parts.len() ==> !(#[trigger] parts[i]).contains('\n') && !(
        parts[i].len() > 0 && parts[i].last() == '\r'),
    ensures
        lines(spec_join(parts, seq!['\n']) + seq!['\n']) == parts,
{
    let t = spec_join(parts, seq!['\n']) + seq!['\n'];
    {
        assert forall|i: int| 0 <= i < parts.len() implies !(#[trigger] parts[i]).contains('\n') by {}
        lemma_split_join(parts, '\n');
        assert(t =~= spec_join(parts, seq!['\n']) + seq!['\n'] + Seq::<char>::empty());
        lemma_split_from_concat(spec_join(parts, seq!['\n']), Seq::<char>::empty(), '\n', seq![]);
        let p = split(t, '\n');
        assert(p =~= parts + seq![Seq::<char>::empty()]);
        assert forall|i: int| 0 <= i < parts.len() implies lines(t)[i] == parts[i] by {
            assert(p[i] == parts[i]);
        }
        assert(lines(t) =~= parts);
    }
}

/// Lowercasing an ASCII text: character by character, the same length,
/// still ASCII, done once for all (lowercasing again changes nothing), and
/// it commutes with dropping a prefix.
pub proof fn lemma_lowercase_ascii_text(x: Seq<char>)
    requires
        vstd::utf8::is_ascii_chars(x),
    ensures
        lowercase(x).len() == x.len(),
        forall|i: int| 0 <= i < x.len() ==> #[trigger] lowercase(x)[i] == ascii_lower(x[i]),
        vstd::utf8::is_ascii_chars(lowercase(x)),
        lowercase(lowercase(x)) == lowercase(x),
        forall|k: int| 0 <= k <= x.len() ==> #[trigger] lowercase(x).skip(k) == lowercase(x.skip(k)),
{
    let y = x.map_values(|c: char| ascii_lower(c));
    assert(lowercase(x) == y);
    assert forall|i: int| 0 <= i < y.len() implies '\0' <= #[trigger] y[i] <= '\u{7f}' by {
        assert(y[i] == ascii_lower(x[i]));
        assert('\0' <= x[i] <= '\u{7f}');
    }
    assert(lowercase(y) =~= y) by {
        assert forall|i: int| 0 <= i < y.len() implies #[trigger] lowercase(y)[i] == y[i] by {
            assert(lowercase(y)[i] == ascii_lower(y[i]));
            assert(y[i] == ascii_lower(x[i]));
        }
    }
    assert forall|k: int| 0 <= k <= x.len() implies #[trigger] lowercase(x).skip(k) == lowercase(x.skip(k)) by {
        let z = x.skip(k);
        assert(vstd::utf8::is_ascii_chars(z)) by {
            assert forall|i: int| 0 <= i < z.len() implies '\0' <= #[trigger] z[i] <= '\u{7f}' by {
                assert(z[i] == x[i + k]);
            }
        }
        assert(lowercase(z) == z.map_values(|c: char| ascii_lower(c)));
        assert(y.skip(k) =~= lowercase(z));
    }
}

} // verus!
