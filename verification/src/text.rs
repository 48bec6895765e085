//! Text as a sequence of characters: trimming, searching, replacing, lines.
use vstd::prelude::*;

verus! {

/// `String::push` appends one character.
pub assume_specification[ String::push ](s: &mut String, c: char)
    ensures
        final(s)@ == old(s)@.push(c),
;

/// Comparing two string slices with `==` compares their characters.
pub assume_specification[ <str as PartialEq<str>>::eq ](a: &str, b: &str) -> (r: bool)
    ensures
        r == (a@ == b@),
;

// ---------------------------------------------------------------------------
// Specifications
// ---------------------------------------------------------------------------

/// The characters with the Unicode property `White_Space`.
pub open spec fn is_space(c: char) -> bool {
    ||| '\u{9}' <= c <= '\u{d}'
    ||| c == '\u{20}' || c == '\u{85}' || c == '\u{a0}' || c == '\u{1680}'
    ||| '\u{2000}' <= c <= '\u{200a}'
    ||| c == '\u{2028}' || c == '\u{2029}' || c == '\u{202f}' || c == '\u{205f}' || c == '\u{3000}'
}

/// `s` without its leading white space.
pub open spec fn trim_start_of(s: Seq<char>) -> Seq<char>
    decreases s.len(),
{
    if s.len() > 0 && is_space(s[0]) {
        trim_start_of(s.skip(1))
    } else {
        s
    }
}

/// `s` without its trailing white space.
pub open spec fn trim_end_of(s: Seq<char>) -> Seq<char>
    decreases s.len(),
{
    if s.len() > 0 && is_space(s.last()) {
        trim_end_of(s.drop_last())
    } else {
        s
    }
}

/// `s` without the white space at either end.
pub open spec fn trim_of(s: Seq<char>) -> Seq<char> {
    trim_end_of(trim_start_of(s))
}

/// `s` without its longest prefix of characters of `set`.
pub open spec fn strip_leading_of(s: Seq<char>, set: Seq<char>) -> Seq<char>
    decreases s.len(),
{
    if s.len() > 0 && set.contains(s[0]) {
        strip_leading_of(s.skip(1), set)
    } else {
        s
    }
}

/// `s` without its longest suffix of characters of `set`.
pub open spec fn strip_trailing_of(s: Seq<char>, set: Seq<char>) -> Seq<char>
    decreases s.len(),
{
    if s.len() > 0 && set.contains(s.last()) {
        strip_trailing_of(s.drop_last(), set)
    } else {
        s
    }
}

/// `s` begins with `p`.
pub open spec fn begins(s: Seq<char>, p: Seq<char>) -> bool {
    p.len() <= s.len() && s.take(p.len() as int) == p
}

/// The pattern `p` stands in `s` at position `i`.
pub open spec fn occurs_at(s: Seq<char>, p: Seq<char>, i: int) -> bool {
    0 <= i && i + p.len() <= s.len() && s.subrange(i, i + p.len()) == p
}

/// The first position from `i` on where `p` stands in `s`.
pub open spec fn find_from(s: Seq<char>, p: Seq<char>, i: int) -> Option<int>
    decreases s.len() - i + 1,
{
    if i + p.len() > s.len() {
        None
    } else if occurs_at(s, p, i) {
        Some(i)
    } else {
        find_from(s, p, i + 1)
    }
}

/// The first position where `p` stands in `s`.
pub open spec fn find_of(s: Seq<char>, p: Seq<char>) -> Option<int> {
    find_from(s, p, 0)
}

/// `p` stands somewhere in `s`.
pub open spec fn contains_of(s: Seq<char>, p: Seq<char>) -> bool {
    find_of(s, p) is Some
}

/// How often `p` occurs in `s`, counting from the left without overlaps. The
/// empty pattern occurs at every boundary between characters.
pub open spec fn count_of(s: Seq<char>, p: Seq<char>) -> nat
    decreases s.len(),
{
    if p.len() == 0 {
        s.len() + 1
    } else {
        match find_of(s, p) {
            None => 0,
            Some(i) => if 0 <= i && i + p.len() <= s.len() {
                1 + count_of(s.skip(i + p.len()), p)
            } else {
                0
            },
        }
    }
}

/// `new` behind every character of `s`.
pub open spec fn interleave(s: Seq<char>, new: Seq<char>) -> Seq<char>
    decreases s.len(),
{
    if s.len() == 0 {
        Seq::empty()
    } else {
        interleave(s.drop_last(), new) + seq![s.last()] + new
    }
}

/// `s` with every occurrence of `p` (from the left, without overlaps) replaced
/// by `new`.
pub open spec fn replace_of(s: Seq<char>, p: Seq<char>, new: Seq<char>) -> Seq<char>
    decreases s.len(),
{
    if p.len() == 0 {
        new + interleave(s, new)
    } else {
        match find_of(s, p) {
            None => s,
            Some(i) => if 0 <= i && i + p.len() <= s.len() {
                s.take(i) + new + replace_of(s.skip(i + p.len()), p, new)
            } else {
                s
            },
        }
    }
}

/// `s` with every character `c` replaced by `new`.
pub open spec fn subst_of(s: Seq<char>, c: char, new: Seq<char>) -> Seq<char>
    decreases s.len(),
{
    if s.len() == 0 {
        Seq::empty()
    } else if s[0] == c {
        new + subst_of(s.skip(1), c, new)
    } else {
        seq![s[0]] + subst_of(s.skip(1), c, new)
    }
}

/// The position of the first `c` in `s`, or the length of `s`.
pub open spec fn first_of(s: Seq<char>, c: char) -> int
    decreases s.len(),
{
    if s.len() == 0 || s[0] == c {
        0
    } else {
        1 + first_of(s.skip(1), c)
    }
}

/// A line without the carriage return at its end.
pub open spec fn chomp(line: Seq<char>) -> Seq<char> {
    if line.len() > 0 && line.last() == '\r' {
        line.drop_last()
    } else {
        line
    }
}

/// The lines of `s`: each ends at a line feed, which is not part of it, nor is a
/// carriage return just before it. What follows the last line feed is a line
/// where it is not empty.
pub open spec fn lines_of(s: Seq<char>) -> Seq<Seq<char>>
    decreases s.len(),
{
    let n = first_of(s, '\n');
    if s.len() == 0 {
        Seq::empty()
    } else if 0 <= n < s.len() {
        seq![chomp(s.take(n))] + lines_of(s.skip(n + 1))
    } else {
        seq![s]
    }
}

/// The lines of `s`, each with its line feed.
pub open spec fn raw_lines_of(s: Seq<char>) -> Seq<Seq<char>>
    decreases s.len(),
{
    let n = first_of(s, '\n');
    if s.len() == 0 {
        Seq::empty()
    } else if 0 <= n < s.len() {
        seq![s.take(n + 1)] + raw_lines_of(s.skip(n + 1))
    } else {
        seq![s]
    }
}

/// `parts` one behind the other, with `sep` between two neighbours.
pub open spec fn join_of(parts: Seq<Seq<char>>, sep: Seq<char>) -> Seq<char>
    decreases parts.len(),
{
    if parts.len() == 0 {
        Seq::empty()
    } else if parts.len() == 1 {
        parts[0]
    } else {
        join_of(parts.drop_last(), sep) + sep + parts.last()
    }
}

/// The first `n` characters of `s`, or all of it where it is shorter.
pub open spec fn clip_of(s: Seq<char>, n: nat) -> Seq<char> {
    if s.len() <= n {
        s
    } else {
        s.take(n as int)
    }
}

/// What a list of strings says.
pub open spec fn texts(v: Seq<String>) -> Seq<Seq<char>> {
    v.map_values(|s: String| s@)
}

/// The last `n` entries of `s`, or all of them where there are fewer.
pub open spec fn last_n_of<A>(s: Seq<A>, n: nat) -> Seq<A> {
    if s.len() <= n {
        s
    } else {
        s.skip(s.len() - n)
    }
}

/// The first `n` entries of `s`, or all of them where there are fewer.
pub open spec fn first_n_of<A>(s: Seq<A>, n: nat) -> Seq<A> {
    if s.len() <= n {
        s
    } else {
        s.take(n as int)
    }
}

// ---------------------------------------------------------------------------
// Lemmas
// ---------------------------------------------------------------------------

/// Adding a string to a list adds what it says.
pub broadcast proof fn lemma_texts_push(v: Seq<String>, s: String)
    ensures
        #[trigger] texts(v.push(s)) == texts(v).push(s@),
{
    assert(texts(v.push(s)) =~= texts(v).push(s@));
}

/// `find_from` is the first occurrence: nothing stands between `i` and it.
pub proof fn lemma_find_from(s: Seq<char>, p: Seq<char>, i: int)
    requires
        0 <= i,
    ensures
        match find_from(s, p, i) {
            Some(k) => i <= k && occurs_at(s, p, k) && forall|j: int|
                i <= j < k ==> !#[trigger] occurs_at(s, p, j),
            None => forall|j: int| i <= j ==> !#[trigger] occurs_at(s, p, j),
        },
    decreases s.len() - i + 1,
{
    if i + p.len() > s.len() {
    } else if occurs_at(s, p, i) {
    } else {
        lemma_find_from(s, p, i + 1);
    }
}

/// `find_of` is the first occurrence of the pattern.
pub proof fn lemma_find(s: Seq<char>, p: Seq<char>)
    ensures
        match find_of(s, p) {
            Some(k) => occurs_at(s, p, k) && forall|j: int|
                0 <= j < k ==> !#[trigger] occurs_at(s, p, j),
            None => forall|j: int| 0 <= j ==> !#[trigger] occurs_at(s, p, j),
        },
{
    lemma_find_from(s, p, 0);
}

/// Where a pattern stands nowhere before `k` and stands at `k`, it is found at `k`.
pub proof fn lemma_find_at(s: Seq<char>, p: Seq<char>, k: int)
    requires
        occurs_at(s, p, k),
        forall|j: int| 0 <= j < k ==> !#[trigger] occurs_at(s, p, j),
    ensures
        find_of(s, p) == Some(k),
{
    lemma_find(s, p);
}

/// A text that lacks the pattern keeps every character under replacement.
pub proof fn lemma_replace_absent(s: Seq<char>, p: Seq<char>, new: Seq<char>)
    requires
        p.len() > 0,
        !contains_of(s, p),
    ensures
        replace_of(s, p, new) == s,
        count_of(s, p) == 0,
{
}

/// A text that ends in no white space, and begins with none, stays as it is when it
/// is trimmed.
pub proof fn lemma_trim_same(s: Seq<char>)
    requires
        s.len() > 0,
        !is_space(s[0]),
        !is_space(s.last()),
    ensures
        trim_of(s) == s,
        trim_start_of(s) == s,
        trim_end_of(s) == s,
{
}

/// A text that was trimmed does not end in white space.
proof fn lemma_trim_end_last(s: Seq<char>)
    ensures
        trim_end_of(s).len() > 0 ==> !is_space(trim_end_of(s).last()),
    decreases s.len(),
{
    if s.len() > 0 && is_space(s.last()) {
        lemma_trim_end_last(s.drop_last());
    }
}

/// Trimming a text again changes nothing.
pub proof fn lemma_trim_again(s: Seq<char>)
    ensures
        trim_of(trim_of(s)) == trim_of(s),
{
    let t = trim_start_of(s);
    let u = trim_end_of(t);
    lemma_trim_start_suffix(s);
    if t.len() > 0 {
        lemma_trim_end_keeps(t, 0);
        lemma_trim_end_last(t);
        assert(u.take(1)[0] == t.take(1)[0]);
        lemma_trim_same(u);
    }
}

/// Trimming the front of a text leaves the rest of it.
pub proof fn lemma_trim_start_suffix(s: Seq<char>)
    ensures
        trim_start_of(s).len() <= s.len(),
        trim_start_of(s) == s.skip(s.len() - trim_start_of(s).len()),
        trim_start_of(s).len() > 0 ==> !is_space(trim_start_of(s)[0]),
        trim_start_of(trim_start_of(s)) == trim_start_of(s),
    decreases s.len(),
{
    if s.len() > 0 && is_space(s[0]) {
        let t = s.skip(1);
        lemma_trim_start_suffix(t);
        assert(s.skip(s.len() - trim_start_of(s).len()) =~= t.skip(t.len() - trim_start_of(t).len()));
    } else {
        assert(s.skip(0) =~= s);
    }
}

/// Trimming the front of two texts, one behind the other, trims the first, and the
/// second too where nothing is left of the first.
pub proof fn lemma_trim_start_add(a: Seq<char>, b: Seq<char>)
    ensures
        trim_start_of(a + b) == (if trim_start_of(a).len() > 0 {
            trim_start_of(a) + b
        } else {
            trim_start_of(b)
        }),
    decreases a.len(),
{
    if a.len() == 0 {
        assert(a + b =~= b);
    } else if is_space(a[0]) {
        assert((a + b).skip(1) =~= a.skip(1) + b);
        lemma_trim_start_add(a.skip(1), b);
    }
}

/// Trimming the end of a text leaves what stands before a character that stays.
pub proof fn lemma_trim_end_keeps(s: Seq<char>, k: int)
    requires
        0 <= k < s.len(),
        !is_space(s[k]),
    ensures
        trim_end_of(s).len() > k,
        trim_end_of(s).take(k + 1) == s.take(k + 1),
    decreases s.len(),
{
    if is_space(s.last()) {
        assert(k < s.len() - 1);
        assert(s.drop_last()[k] == s[k]);
        lemma_trim_end_keeps(s.drop_last(), k);
        assert(s.drop_last().take(k + 1) =~= s.take(k + 1));
    }
}

/// Taking characters off the end of a text leaves what stands before a character
/// that stays.
pub proof fn lemma_strip_trailing_keeps(s: Seq<char>, set: Seq<char>, k: int)
    requires
        0 <= k < s.len(),
        !set.contains(s[k]),
    ensures
        strip_trailing_of(s, set).len() > k,
        strip_trailing_of(s, set).take(k + 1) == s.take(k + 1),
    decreases s.len(),
{
    if set.contains(s.last()) {
        assert(k < s.len() - 1);
        assert(s.drop_last()[k] == s[k]);
        lemma_strip_trailing_keeps(s.drop_last(), set, k);
        assert(s.drop_last().take(k + 1) =~= s.take(k + 1));
    }
}

/// The first line of a text ends where its first line feed stands.
pub proof fn lemma_first_line(s: Seq<char>, n: int)
    requires
        0 < n < s.len(),
        s[n] == '\n',
        s[n - 1] != '\r',
        forall|i: int| 0 <= i < n ==> s[i] != '\n',
    ensures
        lines_of(s).len() > 0,
        lines_of(s)[0] == s.take(n),
{
    lemma_first_of_unique(s, '\n', n);
    assert(s.take(n).last() == s[n - 1]);
}

/// Characters may be replaced in two parts of a text.
pub proof fn lemma_subst_add(a: Seq<char>, b: Seq<char>, c: char, new: Seq<char>)
    ensures
        subst_of(a + b, c, new) == subst_of(a, c, new) + subst_of(b, c, new),
    decreases a.len(),
{
    if a.len() == 0 {
        assert(a + b =~= b);
        assert(subst_of(a + b, c, new) =~= subst_of(a, c, new) + subst_of(b, c, new));
    } else {
        assert((a + b).skip(1) =~= a.skip(1) + b);
        lemma_subst_add(a.skip(1), b, c, new);
        assert(subst_of(a + b, c, new) =~= subst_of(a, c, new) + subst_of(b, c, new));
    }
}

/// A text without the character stays as it is.
pub proof fn lemma_subst_absent(s: Seq<char>, c: char, new: Seq<char>)
    requires
        forall|i: int| 0 <= i < s.len() ==> s[i] != c,
    ensures
        subst_of(s, c, new) == s,
    decreases s.len(),
{
    if s.len() > 0 {
        lemma_subst_absent(s.skip(1), c, new);
    }
    assert(subst_of(s, c, new) =~= s);
}

/// Replacing a pattern of one character replaces that character.
pub proof fn lemma_replace_char(s: Seq<char>, c: char, new: Seq<char>)
    ensures
        replace_of(s, seq![c], new) == subst_of(s, c, new),
    decreases s.len(),
{
    let p = seq![c];
    lemma_find(s, p);
    match find_of(s, p) {
        None => {
            assert forall|i: int| 0 <= i < s.len() implies s[i] != c by {
                if s[i] == c {
                    assert(s.subrange(i, i + 1) =~= p);
                    assert(occurs_at(s, p, i));
                }
            }
            lemma_subst_absent(s, c, new);
        },
        Some(i) => {
            let front = s.take(i);
            let rest = s.skip(i + 1);
            assert(s[i] == c) by {
                assert(s.subrange(i, i + 1)[0] == p[0]);
            }
            assert forall|k: int| 0 <= k < front.len() implies front[k] != c by {
                if front[k] == c {
                    assert(s.subrange(k, k + 1) =~= p);
                    assert(occurs_at(s, p, k));
                }
            }
            lemma_subst_absent(front, c, new);
            lemma_replace_char(rest, c, new);
            assert(s =~= front + s.skip(i));
            lemma_subst_add(front, s.skip(i), c, new);
            assert(s.skip(i).skip(1) =~= rest);
            assert(replace_of(s, p, new) =~= front + (new + subst_of(rest, c, new)));
        },
    }
}

proof fn lemma_first_of_bounds(s: Seq<char>, c: char)
    ensures
        0 <= first_of(s, c) <= s.len(),
        first_of(s, c) < s.len() ==> s[first_of(s, c)] == c,
        forall|i: int| 0 <= i < first_of(s, c) ==> s[i] != c,
    decreases s.len(),
{
    if s.len() == 0 || s[0] == c {
    } else {
        lemma_first_of_bounds(s.skip(1), c);
        assert forall|i: int| 0 <= i < first_of(s, c) implies s[i] != c by {
            if i > 0 {
                assert(s.skip(1)[i - 1] == s[i]);
            }
        }
    }
}

proof fn lemma_first_of_unique(s: Seq<char>, c: char, k: int)
    requires
        0 <= k <= s.len(),
        k < s.len() ==> s[k] == c,
        forall|i: int| 0 <= i < k ==> s[i] != c,
    ensures
        first_of(s, c) == k,
{
    lemma_first_of_bounds(s, c);
}

// ---------------------------------------------------------------------------
// Functions
// ---------------------------------------------------------------------------

/// The characters of `s`.
pub fn chars_of(s: &str) -> (r: Vec<char>)
    ensures
        r@ == s@,
{
    let mut v: Vec<char> = Vec::new();
    for c in it: s.chars()
        invariant
            it.seq() == s@,
            v@ == s@.take(it.index()),
    {
        v.push(c);
    }
    v
}

/// The text made of the characters `from..to` of `v`.
pub fn text_of(v: &Vec<char>, from: usize, to: usize) -> (r: String)
    requires
        from <= to <= v@.len(),
    ensures
        r@ == v@.subrange(from as int, to as int),
{
    let mut s = String::new();
    for i in from..to
        invariant
            from <= to <= v@.len(),
            s@ == v@.subrange(from as int, i as int),
    {
        s.push(v[i]);
        assert(v@.subrange(from as int, i + 1) =~= v@.subrange(from as int, i as int).push(v@[i as int]));
    }
    s
}

/// Whether two texts are the same.
pub fn same(a: &str, b: &str) -> (r: bool)
    ensures
        r == (a@ == b@),
{
    *a == *b
}

/// Whether `c` is white space.
pub fn is_space_char(c: char) -> (r: bool)
    ensures
        r == is_space(c),
{
    ('\u{9}' <= c && c <= '\u{d}') || c == '\u{20}' || c == '\u{85}' || c == '\u{a0}' || c == '\u{1680}'
        || ('\u{2000}' <= c && c <= '\u{200a}') || c == '\u{2028}' || c == '\u{2029}' || c == '\u{202f}'
        || c == '\u{205f}' || c == '\u{3000}'
}

/// `s` without its leading white space.
pub fn trim_start(s: &str) -> (r: &str)
    ensures
        r@ == trim_start_of(s@),
{
    let v = chars_of(s);
    let n = v.len();
    let mut i: usize = 0;
    assert(s@.skip(0) =~= s@);
    while i < n && is_space_char(v[i])
        invariant
            i <= n == v@.len(),
            v@ == s@,
            trim_start_of(s@) == trim_start_of(s@.skip(i as int)),
        decreases n - i,
    {
        assert(s@.skip(i as int).skip(1) =~= s@.skip(i + 1));
        i = i + 1;
    }
    assert(s@.subrange(i as int, n as int) =~= s@.skip(i as int));
    s.substring_char(i, n)
}

/// `s` without its trailing white space.
pub fn trim_end(s: &str) -> (r: &str)
    ensures
        r@ == trim_end_of(s@),
{
    let v = chars_of(s);
    let mut i: usize = v.len();
    assert(s@.take(i as int) =~= s@);
    while i > 0 && is_space_char(v[i - 1])
        invariant
            i <= v@.len(),
            v@ == s@,
            trim_end_of(s@) == trim_end_of(s@.take(i as int)),
        decreases i,
    {
        assert(s@.take(i as int).drop_last() =~= s@.take(i - 1));
        i = i - 1;
    }
    assert(s@.subrange(0, i as int) =~= s@.take(i as int));
    s.substring_char(0, i)
}

/// `s` without the white space at either end.
pub fn trim(s: &str) -> (r: &str)
    ensures
        r@ == trim_of(s@),
{
    trim_end(trim_start(s))
}

/// Whether `c` is one of the characters of `set`.
pub fn one_of(c: char, set: &Vec<char>) -> (r: bool)
    ensures
        r == set@.contains(c),
{
    for i in 0..set.len()
        invariant
            forall|k: int| 0 <= k < i ==> set@[k] != c,
    {
        if set[i] == c {
            return true;
        }
    }
    false
}

/// `s` without its longest prefix of characters of `set`.
pub fn strip_leading<'a>(s: &'a str, set: &str) -> (r: &'a str)
    ensures
        r@ == strip_leading_of(s@, set@),
{
    let v = chars_of(s);
    let chars = chars_of(set);
    let n = v.len();
    let mut i: usize = 0;
    assert(s@.skip(0) =~= s@);
    while i < n && one_of(v[i], &chars)
        invariant
            i <= n == v@.len(),
            v@ == s@,
            chars@ == set@,
            strip_leading_of(s@, set@) == strip_leading_of(s@.skip(i as int), set@),
        decreases n - i,
    {
        assert(s@.skip(i as int).skip(1) =~= s@.skip(i + 1));
        i = i + 1;
    }
    assert(s@.subrange(i as int, n as int) =~= s@.skip(i as int));
    s.substring_char(i, n)
}

/// `s` without its longest suffix of characters of `set`.
pub fn strip_trailing<'a>(s: &'a str, set: &str) -> (r: &'a str)
    ensures
        r@ == strip_trailing_of(s@, set@),
{
    let v = chars_of(s);
    let chars = chars_of(set);
    let mut i: usize = v.len();
    assert(s@.take(i as int) =~= s@);
    while i > 0 && one_of(v[i - 1], &chars)
        invariant
            i <= v@.len(),
            v@ == s@,
            chars@ == set@,
            strip_trailing_of(s@, set@) == strip_trailing_of(s@.take(i as int), set@),
        decreases i,
    {
        assert(s@.take(i as int).drop_last() =~= s@.take(i - 1));
        i = i - 1;
    }
    assert(s@.subrange(0, i as int) =~= s@.take(i as int));
    s.substring_char(0, i)
}

/// Whether `p` stands in `v` at position `i`.
pub fn matches_at(v: &Vec<char>, p: &Vec<char>, i: usize) -> (r: bool)
    requires
        i <= v@.len(),
    ensures
        r == occurs_at(v@, p@, i as int),
{
    let n = v.len();
    if p.len() > n - i {
        return false;
    }
    for k in 0..p.len()
        invariant
            i + p@.len() <= v@.len() == n,
            forall|j: int| 0 <= j < k ==> v@[i + j] == p@[j],
    {
        if v[i + k] != p[k] {
            assert(v@.subrange(i as int, i + p@.len())[k as int] != p@[k as int]);
            return false;
        }
    }
    assert(v@.subrange(i as int, i + p@.len()) =~= p@);
    true
}

/// The first position from `from` on where `p` stands in `v`.
pub fn find_at(v: &Vec<char>, p: &Vec<char>, from: usize) -> (r: Option<usize>)
    requires
        from <= v@.len(),
    ensures
        match r {
            Some(k) => find_from(v@, p@, from as int) == Some(k as int),
            None => find_from(v@, p@, from as int) is None,
        },
{
    let mut i: usize = from;
    loop
        invariant
            from <= i <= v@.len(),
            find_from(v@, p@, from as int) == find_from(v@, p@, i as int),
        decreases v@.len() - i,
    {
        if p.len() > v.len() - i {
            return None;
        }
        if matches_at(v, p, i) {
            return Some(i);
        }
        if i == v.len() {
            assert(p@.len() == 0);
            assert(v@.subrange(i as int, i as int) =~= p@);
            return None;
        }
        i = i + 1;
    }
}

/// The first position, counted in characters, where `p` stands in `s`.
pub fn find(s: &str, p: &str) -> (r: Option<usize>)
    ensures
        match r {
            Some(k) => find_of(s@, p@) == Some(k as int),
            None => find_of(s@, p@) is None,
        },
{
    find_at(&chars_of(s), &chars_of(p), 0)
}

/// Whether `p` stands somewhere in `s`.
pub fn contains(s: &str, p: &str) -> (r: bool)
    ensures
        r == contains_of(s@, p@),
{
    find(s, p).is_some()
}

/// Whether `s` begins with `p`.
pub fn starts_with(s: &str, p: &str) -> (r: bool)
    ensures
        r == begins(s@, p@),
{
    let v = chars_of(s);
    let q = chars_of(p);
    let r = matches_at(&v, &q, 0);
    assert(p@.len() <= s@.len() ==> s@.subrange(0, p@.len() as int) =~= s@.take(p@.len() as int));
    r
}

/// What follows the prefix `p` of `s`, where `s` begins with it.
pub fn strip_prefix<'a>(s: &'a str, p: &str) -> (r: Option<&'a str>)
    ensures
        r is Some <==> begins(s@, p@),
        r matches Some(t) ==> t@ == s@.skip(p@.len() as int),
{
    if starts_with(s, p) {
        let n = p.unicode_len();
        let m = s.unicode_len();
        assert(s@.subrange(n as int, m as int) =~= s@.skip(n as int));
        Some(s.substring_char(n, m))
    } else {
        None
    }
}

/// How often `p` occurs in `s`, where the count fits a machine word.
pub fn count_matches(s: &str, p: &str) -> (r: usize)
    requires
        s@.len() < usize::MAX,
    ensures
        r == count_of(s@, p@),
{
    let v = chars_of(s);
    let q = chars_of(p);
    if q.len() == 0 {
        return v.len() + 1;
    }
    let mut pos: usize = 0;
    let mut n: usize = 0;
    assert(v@.skip(0) =~= v@);
    loop
        invariant
            pos <= v@.len(),
            q@.len() > 0,
            v@.len() < usize::MAX,
            n <= pos,
            n + count_of(v@.skip(pos as int), q@) == count_of(v@, q@),
        ensures
            n == count_of(v@, q@),
        decreases v@.len() - pos,
    {
        proof { lemma_find_shift(v@, q@, pos as int); }
        match find_at(&v, &q, pos) {
            None => {
                break;
            },
            Some(k) => {
                proof {
                    lemma_find_from(v@, q@, pos as int);
                    assert(v@.skip(pos as int).skip(k - pos + q@.len()) =~= v@.skip(k + q@.len()));
                }
                n = n + 1;
                pos = k + q.len();
            },
        }
    }
    n
}

/// Searching from a position is searching in what follows it.
proof fn lemma_find_shift(s: Seq<char>, p: Seq<char>, k: int)
    requires
        0 <= k <= s.len(),
    ensures
        match find_of(s.skip(k), p) {
            Some(i) => find_from(s, p, k) == Some(i + k),
            None => find_from(s, p, k) is None,
        },
{
    let t = s.skip(k);
    lemma_find_from(s, p, k);
    lemma_find(t, p);
    assert forall|j: int| 0 <= j implies #[trigger] occurs_at(t, p, j) == occurs_at(s, p, j + k) by {
        if j + p.len() <= t.len() {
            assert(t.subrange(j, j + p.len()) =~= s.subrange(j + k, j + k + p.len()));
        }
    }
    match (find_of(t, p), find_from(s, p, k)) {
        (Some(i), Some(m)) => {
            assert(occurs_at(t, p, m - k));
            assert(occurs_at(s, p, i + k));
        },
        (Some(i), None) => {
            assert(occurs_at(s, p, i + k));
        },
        (None, Some(m)) => {
            assert(occurs_at(t, p, m - k));
        },
        (None, None) => {},
    }
}

/// `s` with every occurrence of `p` replaced by `new`.
pub fn replace(s: &str, p: &str, new: &str) -> (r: String)
    ensures
        r@ == replace_of(s@, p@, new@),
{
    let v = chars_of(s);
    let q = chars_of(p);
    let mut out = String::new();
    if q.len() == 0 {
        out.append(new);
        assert(out@ =~= new@ + interleave(v@.take(0), new@));
        for i in 0..v.len()
            invariant
                out@ == new@ + interleave(v@.take(i as int), new@),
        {
            proof {
                assert(v@.take(i + 1).drop_last() =~= v@.take(i as int));
                assert(v@.take(i + 1).last() == v@[i as int]);
            }
            let ghost before = out@;
            out.push(v[i]);
            out.append(new);
            assert(out@ =~= new@ + interleave(v@.take(i + 1), new@));
        }
        assert(v@.take(v@.len() as int) =~= v@);
        return out;
    }
    let mut pos: usize = 0;
    assert(v@.skip(0) =~= v@);
    assert(out@ + replace_of(v@, q@, new@) =~= replace_of(v@, q@, new@));
    let n = v.len();
    loop
        invariant_except_break
            pos <= v@.len() == n,
            q@.len() > 0,
            out@ + replace_of(v@.skip(pos as int), q@, new@) == replace_of(v@, q@, new@),
        ensures
            out@ == replace_of(v@, q@, new@),
        decreases v@.len() - pos,
    {
        proof { lemma_find_shift(v@, q@, pos as int); }
        match find_at(&v, &q, pos) {
            None => {
                let tail = text_of(&v, pos, v.len());
                out.append(tail.as_str());
                assert(tail@ =~= v@.skip(pos as int));
                break;
            },
            Some(k) => {
                proof {
                    lemma_find_from(v@, q@, pos as int);
                }
                let ghost rest = v@.skip(pos as int);
                let ghost before = out@;
                let part = text_of(&v, pos, k);
                out.append(part.as_str());
                out.append(new);
                proof {
                    assert(part@ =~= rest.take(k - pos));
                    assert(rest.skip(k - pos + q@.len()) =~= v@.skip(k + q@.len()));
                    assert(out@ + replace_of(v@.skip(k + q@.len()), q@, new@)
                        =~= before + replace_of(rest, q@, new@));
                }
                pos = k + q.len();
            },
        }
    }
    out
}

/// The position of the first `c` in `v` from `from` on, or the length of `v`.
pub fn scan(v: &Vec<char>, c: char, from: usize) -> (r: usize)
    requires
        from <= v@.len(),
    ensures
        from <= r <= v@.len(),
        r - from == first_of(v@.skip(from as int), c),
{
    let mut i: usize = from;
    while i < v.len() && v[i] != c
        invariant
            from <= i <= v@.len(),
            forall|k: int| from <= k < i ==> v@[k] != c,
        decreases v@.len() - i,
    {
        i = i + 1;
    }
    proof { lemma_first_of_unique(v@.skip(from as int), c, i - from); }
    i
}

/// The lines of `s`, without their line ends.
pub fn lines(s: &str) -> (r: Vec<String>)
    ensures
        texts(r@) == lines_of(s@),
{
    let v = chars_of(s);
    let n = v.len();
    let mut out: Vec<String> = Vec::new();
    let mut pos: usize = 0;
    assert(v@.skip(0) =~= v@);
    assert(texts(out@) + lines_of(v@) =~= lines_of(v@));
    while pos < n
        invariant
            pos <= n == v@.len(),
            texts(out@) + lines_of(v@.skip(pos as int)) == lines_of(v@),
        decreases n - pos,
    {
        let end = scan(&v, '\n', pos);
        let ghost rest = v@.skip(pos as int);
        let ghost before = out@;
        if end < n {
            let stop = if end > pos && v[end - 1] == '\r' { end - 1 } else { end };
            let line = text_of(&v, pos, stop);
            proof {
                assert(rest.take(end - pos).len() == end - pos);
                if end > pos {
                    assert(rest.take(end - pos).last() == v@[end - 1]);
                }
                assert(line@ =~= chomp(rest.take(end - pos)));
                assert(rest.skip(end - pos + 1) =~= v@.skip(end + 1));
                lemma_texts_push(out@, line);
            }
            out.push(line);
            assert(texts(out@) + lines_of(v@.skip(end + 1)) =~= texts(before) + lines_of(rest));
            pos = end + 1;
        } else {
            let line = text_of(&v, pos, n);
            proof {
                assert(line@ =~= rest);
                lemma_texts_push(out@, line);
            }
            out.push(line);
            pos = n;
            assert(v@.skip(n as int) =~= Seq::empty());
            assert(texts(out@) + lines_of(v@.skip(n as int)) =~= texts(before) + lines_of(rest));
        }
    }
    assert(v@.skip(pos as int) =~= Seq::empty());
    assert(texts(out@) + lines_of(v@.skip(pos as int)) =~= texts(out@));
    out
}

/// The lines of `s`, each with its line feed.
pub fn split_keepends(s: &str) -> (r: Vec<String>)
    ensures
        texts(r@) == raw_lines_of(s@),
{
    let v = chars_of(s);
    let n = v.len();
    let mut out: Vec<String> = Vec::new();
    let mut pos: usize = 0;
    assert(v@.skip(0) =~= v@);
    assert(texts(out@) + raw_lines_of(v@) =~= raw_lines_of(v@));
    while pos < n
        invariant
            pos <= n == v@.len(),
            texts(out@) + raw_lines_of(v@.skip(pos as int)) == raw_lines_of(v@),
        decreases n - pos,
    {
        let end = scan(&v, '\n', pos);
        let ghost rest = v@.skip(pos as int);
        let ghost before = out@;
        let stop = if end < n { end + 1 } else { n };
        let line = text_of(&v, pos, stop);
        proof {
            if end < n {
                assert(line@ =~= rest.take(end - pos + 1));
                assert(rest.skip(end - pos + 1) =~= v@.skip(end + 1));
            } else {
                assert(line@ =~= rest);
                assert(v@.skip(n as int) =~= Seq::empty());
            }
            lemma_texts_push(out@, line);
        }
        out.push(line);
        assert(texts(out@) + raw_lines_of(v@.skip(stop as int)) =~= texts(before) + raw_lines_of(rest));
        pos = stop;
    }
    assert(v@.skip(pos as int) =~= Seq::empty());
    assert(texts(out@) + raw_lines_of(v@.skip(pos as int)) =~= texts(out@));
    out
}

/// `parts` one behind the other, with `sep` between two neighbours.
pub fn join(parts: &Vec<String>, sep: &str) -> (r: String)
    ensures
        r@ == join_of(texts(parts@), sep@),
{
    let mut out = String::new();
    let ghost all = texts(parts@);
    for i in 0..parts.len()
        invariant
            all == texts(parts@),
            out@ == join_of(all.take(i as int), sep@),
    {
        proof {
            assert(all.take(i + 1).drop_last() =~= all.take(i as int));
            assert(all.take(i + 1).last() == parts@[i as int]@);
        }
        if i > 0 {
            out.append(sep);
            out.append(parts[i].as_str());
        } else {
            out = parts[i].clone();
        }
    }
    assert(all.take(parts@.len() as int) =~= all);
    out
}

/// The first `n` characters of `s`, or all of it where it is shorter.
pub fn clip(s: &str, n: usize) -> (r: String)
    ensures
        r@ == clip_of(s@, n as nat),
{
    if s.unicode_len() <= n {
        String::from_str(s)
    } else {
        assert(s@.subrange(0, n as int) =~= s@.take(n as int));
        String::from_str(s.substring_char(0, n))
    }
}

/// A copy of a list of strings.
pub fn copy_texts(v: &Vec<String>) -> (r: Vec<String>)
    ensures
        texts(r@) == texts(v@),
        r@.len() == v@.len(),
{
    let mut out: Vec<String> = Vec::new();
    for i in 0..v.len()
        invariant
            out@.len() == i,
            forall|k: int| 0 <= k < i ==> out@[k]@ == v@[k]@,
    {
        out.push(v[i].clone());
    }
    assert(texts(out@) =~= texts(v@));
    out
}

/// A copy of the entries `from..to` of a list of strings.
pub fn copy_range(v: &Vec<String>, from: usize, to: usize) -> (r: Vec<String>)
    requires
        from <= to <= v@.len(),
    ensures
        texts(r@) == texts(v@).subrange(from as int, to as int),
{
    let mut out: Vec<String> = Vec::new();
    for i in from..to
        invariant
            from <= i <= to <= v@.len(),
            out@.len() == i - from,
            forall|k: int| 0 <= k < i - from ==> out@[k]@ == v@[from + k]@,
    {
        out.push(v[i].clone());
    }
    assert(texts(out@) =~= texts(v@).subrange(from as int, to as int));
    out
}

/// The last `n` entries of `lines`, or all of them where there are fewer.
pub fn last_n(lines: &Vec<String>, n: usize) -> (r: Vec<String>)
    ensures
        texts(r@) == last_n_of(texts(lines@), n as nat),
{
    let len = lines.len();
    let start: usize = if len > n { len - n } else { 0 };
    let r = copy_range(lines, start, len);
    assert(texts(r@) =~= last_n_of(texts(lines@), n as nat));
    r
}

/// The first `n` entries of `lines`, or all of them where there are fewer.
pub fn first_n(lines: &Vec<String>, n: usize) -> (r: Vec<String>)
    ensures
        texts(r@) == first_n_of(texts(lines@), n as nat),
{
    let len = lines.len();
    let end: usize = if len > n { n } else { len };
    let r = copy_range(lines, 0, end);
    assert(texts(r@) =~= first_n_of(texts(lines@), n as nat));
    r
}

// ---------------------------------------------------------------------------
// Laws
// ---------------------------------------------------------------------------

/// All characters are white space.
pub open spec fn is_white(s: Seq<char>) -> bool {
    forall|i: int| 0 <= i < s.len() ==> is_space(#[trigger] s[i])
}

/// Trimming takes white space off either end, all of it, and nothing else.
pub proof fn law_trim_takes_white_space(a: Seq<char>, s: Seq<char>, b: Seq<char>)
    requires
        is_white(a),
        is_white(b),
        s.len() > 0 ==> !is_space(s[0]) && !is_space(s.last()),
    ensures
        trim_of(a + s + b) == s,
        s.len() > 0 ==> trim_start_of(a + s + b) == s + b,
{
    lemma_trim_start_white(a, s + b);
    assert(a + s + b =~= a + (s + b));
    if s.len() == 0 {
        lemma_trim_start_white(b, Seq::empty());
        assert(s + b =~= b);
        assert(b + Seq::<char>::empty() =~= b);
        assert(trim_of(a + s + b) =~= s);
    } else {
        assert((s + b)[0] == s[0]);
        lemma_trim_end_white(s, b);
    }
}

pub proof fn lemma_trim_start_white(a: Seq<char>, s: Seq<char>)
    requires
        is_white(a),
    ensures
        trim_start_of(a + s) == trim_start_of(s),
    decreases a.len(),
{
    if a.len() == 0 {
        assert(a + s =~= s);
    } else {
        assert((a + s)[0] == a[0]);
        assert(is_space(a[0]));
        assert((a + s).skip(1) =~= a.skip(1) + s);
        lemma_trim_start_white(a.skip(1), s);
    }
}

proof fn lemma_trim_end_white(s: Seq<char>, b: Seq<char>)
    requires
        is_white(b),
        s.len() > 0,
        !is_space(s.last()),
    ensures
        trim_end_of(s + b) == s,
    decreases b.len(),
{
    if b.len() == 0 {
        assert(s + b =~= s);
    } else {
        assert((s + b).last() == b.last());
        assert(is_space(b[b.len() - 1]));
        assert((s + b).drop_last() =~= s + b.drop_last());
        lemma_trim_end_white(s, b.drop_last());
    }
}

/// Taking characters of a set off the end of a text takes all of them, and nothing else.
pub proof fn law_strip_takes_the_set(s: Seq<char>, b: Seq<char>, set: Seq<char>)
    requires
        s.len() > 0 ==> !set.contains(s.last()),
        forall|i: int| 0 <= i < b.len() ==> set.contains(#[trigger] b[i]),
    ensures
        strip_trailing_of(s + b, set) == s,
    decreases b.len(),
{
    if b.len() == 0 {
        assert(s + b =~= s);
    } else {
        assert((s + b).last() == b.last());
        assert(set.contains(b[b.len() - 1]));
        assert((s + b).drop_last() =~= s + b.drop_last());
        law_strip_takes_the_set(s, b.drop_last(), set);
    }
}

/// What is found is the first occurrence, and something is found wherever there is one.
pub proof fn law_first_occurrence_is_found(s: Seq<char>, p: Seq<char>, i: int)
    requires
        occurs_at(s, p, i),
        forall|j: int| 0 <= j < i ==> !#[trigger] occurs_at(s, p, j),
    ensures
        find_of(s, p) == Some(i),
        contains_of(s, p),
{
    lemma_find_at(s, p, i);
}

/// What is not found stands nowhere.
pub proof fn law_nothing_is_overlooked(s: Seq<char>, p: Seq<char>, i: int)
    requires
        find_of(s, p) is None,
    ensures
        !occurs_at(s, p, i),
        p.len() > 0 ==> count_of(s, p) == 0 && forall|new: Seq<char>| #[trigger] replace_of(s, p, new) == s,
{
    lemma_find(s, p);
}

/// Each replacement changes the length by what the new text is longer than the old one,
/// once for each occurrence; and a text that is replaced by itself stays.
pub proof fn law_each_occurrence_is_replaced(s: Seq<char>, p: Seq<char>, new: Seq<char>)
    requires
        p.len() > 0,
    ensures
        replace_of(s, p, new).len() == s.len() + count_of(s, p) * (new.len() - p.len()),
        replace_of(s, p, p) == s,
    decreases s.len(),
{
    lemma_find(s, p);
    match find_of(s, p) {
        None => {
            assert(0 * (new.len() - p.len()) == 0) by (nonlinear_arith);
        },
        Some(i) => {
            let rest = s.skip(i + p.len());
            law_each_occurrence_is_replaced(rest, p, new);
            let n = count_of(rest, p) as int;
            let d = new.len() - p.len();
            assert((n + 1) * d == n * d + d) by (nonlinear_arith);
            assert(s.subrange(i, i + p.len()) == p);
            assert(replace_of(s, p, p) =~= s);
        },
    }
}

/// Where the new text shares no character with the old one, none of the old is left.
pub proof fn law_no_occurrence_is_left(s: Seq<char>, p: Seq<char>, new: Seq<char>, k: int)
    requires
        p.len() > 0,
        new.len() > 0,
        forall|i: int| 0 <= i < new.len() ==> !p.contains(#[trigger] new[i]),
    ensures
        !occurs_at(replace_of(s, p, new), p, k),
    decreases s.len(),
{
    lemma_find(s, p);
    if find_of(s, p) is Some {
        let i = find_of(s, p)->0;
        let rest = s.skip(i + p.len());
        let tail = replace_of(rest, p, new);
        let out = replace_of(s, p, new);
        assert(out =~= s.take(i) + new + tail);
        law_no_occurrence_is_left(rest, p, new, k - i - new.len());
        if occurs_at(out, p, k) {
            let m = p.len() as int;
            assert(out.subrange(k, k + m) == p);
            assert forall|j: int| 0 <= j < m implies out[k + j] == #[trigger] p[j] by {
                assert(out.subrange(k, k + m)[j] == p[j]);
            }
            if k + m <= i {
                assert(s.subrange(k, k + m) =~= p);
                assert(occurs_at(s, p, k));
            } else if k < i + new.len() {
                let at = if k >= i { k } else { i };
                assert(out[at] == new[at - i]);
                assert(p[at - k] == out[k + (at - k)]);
                assert(p.contains(new[at - i]));
            } else {
                let j = k - i - new.len();
                assert(tail.subrange(j, j + m) =~= p);
                assert(occurs_at(tail, p, j));
            }
        }
    }
}

/// Lists of lines are joined one behind the other.
pub proof fn law_join_adds(a: Seq<Seq<char>>, b: Seq<Seq<char>>, sep: Seq<char>)
    requires
        a.len() > 0,
        b.len() > 0,
    ensures
        join_of(a + b, sep) == join_of(a, sep) + sep + join_of(b, sep),
        join_of(a.take(1), sep) == a[0],
        join_of(Seq::empty(), sep).len() == 0,
    decreases b.len(),
{
    assert((a + b).drop_last() =~= a + b.drop_last());
    assert((a + b).last() == b.last());
    if b.len() > 1 {
        law_join_adds(a, b.drop_last(), sep);
        assert(join_of(a + b, sep) =~= join_of(a, sep) + sep + join_of(b, sep));
    } else {
        assert(a + b.drop_last() =~= a);
        assert(b.last() == b[0]);
    }
}

/// A line and what follows it: the line is the first, without its end, and the lines of
/// the rest come behind it.
pub proof fn law_lines_are_read_in_order(line: Seq<char>, rest: Seq<char>)
    requires
        !line.contains('\n'),
    ensures
        raw_lines_of(line + "\n"@ + rest) == seq![line + "\n"@] + raw_lines_of(rest),
        line.len() == 0 || line.last() != '\r' ==> lines_of(line + "\n"@ + rest) == seq![line] + lines_of(rest),
        lines_of(line + "\r\n"@ + rest) == seq![line] + lines_of(rest),
        line.len() > 0 ==> lines_of(line) == seq![line] && raw_lines_of(line) == seq![line],
        lines_of(Seq::empty()).len() == 0 && raw_lines_of(Seq::empty()).len() == 0,
{
    reveal_strlit("\n");
    reveal_strlit("\r\n");
    let n = line.len() as int;
    let one = line + "\n"@ + rest;
    let two = line + "\r\n"@ + rest;
    assert forall|k: int| 0 <= k < n implies #[trigger] line[k] != '\n' by {
        assert(line.contains(line[k]));
    }
    lemma_first_of_unique(one, '\n', n);
    assert(one.take(n) =~= line && one.skip(n + 1) =~= rest && one.take(n + 1) =~= line + "\n"@);
    assert forall|k: int| 0 <= k < n + 1 implies #[trigger] two[k] != '\n' by {
        if k < n {
            assert(two[k] == line[k]);
        }
    }
    lemma_first_of_unique(two, '\n', n + 1);
    assert(two.take(n + 1) =~= line.push('\r') && two.skip(n + 2) =~= rest);
    assert(line.push('\r').drop_last() =~= line);
    lemma_first_of_unique(line, '\n', n);
}

/// Of a list, the first ones are its beginning, the last ones its end, and as many as
/// there are.
pub proof fn law_ends_of_lists<A>(s: Seq<A>, n: nat)
    ensures
        first_n_of(s, n).is_prefix_of(s),
        last_n_of(s, n).is_suffix_of(s),
        first_n_of(s, n).len() == if s.len() < n { s.len() } else { n },
        last_n_of(s, n).len() == if s.len() < n { s.len() } else { n },
{
    assert(s.subrange(0, s.len() as int) =~= s);
    if s.len() > n {
        assert(s.subrange(0, n as int) =~= s.take(n as int));
        assert(s.subrange(s.len() - n, s.len() as int) =~= s.skip(s.len() - n));
    }
}

/// A text is cut behind so many characters, and no earlier.
pub proof fn law_clip_keeps_the_beginning(s: Seq<char>, n: nat)
    ensures
        clip_of(s, n).is_prefix_of(s),
        clip_of(s, n).len() == if s.len() < n { s.len() } else { n },
{
    assert(s.subrange(0, s.len() as int) =~= s);
    if s.len() > n {
        assert(s.subrange(0, n as int) =~= s.take(n as int));
    }
}

/// Stripping takes the characters of the set off the beginning, all of them, and nothing
/// else.
pub proof fn law_strip_takes_the_set_off_the_beginning(a: Seq<char>, s: Seq<char>, set: Seq<char>)
    requires
        s.len() > 0 ==> !set.contains(s[0]),
        forall|i: int| 0 <= i < a.len() ==> set.contains(#[trigger] a[i]),
    ensures
        strip_leading_of(a + s, set) == s,
    decreases a.len(),
{
    if a.len() == 0 {
        assert(a + s =~= s);
    } else {
        assert((a + s)[0] == a[0]);
        assert(set.contains(a[0]));
        assert((a + s).skip(1) =~= a.skip(1) + s);
        law_strip_takes_the_set_off_the_beginning(a.skip(1), s, set);
    }
}

/// The empty text stands at both ends of a text and between any two characters: that often
/// it is counted, and there the new text is put.
pub proof fn law_empty_text_stands_everywhere(s: Seq<char>, new: Seq<char>)
    ensures
        count_of(s, Seq::empty()) == s.len() + 1,
        replace_of(s, Seq::empty(), new).len() == s.len() + (s.len() + 1) * new.len(),
        replace_of(s, Seq::empty(), Seq::empty()) == s,
    decreases s.len(),
{
    let none = Seq::<char>::empty();
    assert(replace_of(s, none, new) == new + interleave(s, new));
    if s.len() == 0 {
        assert((0 + 1) * new.len() == new.len()) by (nonlinear_arith);
        assert(replace_of(s, none, none) =~= s);
    } else {
        let t = s.drop_last();
        law_empty_text_stands_everywhere(t, new);
        assert(replace_of(t, none, new) == new + interleave(t, new));
        let n = s.len() as int;
        let d = new.len() as int;
        assert((n + 1) * d == n * d + d) by (nonlinear_arith);
        assert(replace_of(t, none, none) =~= interleave(t, none));
        assert(replace_of(s, none, none) =~= s);
    }
}

/// Among the characters of ASCII, the blank, the tab, the line feed, the carriage return,
/// the form feed and the vertical tab are white space, and no other.
pub proof fn law_white_space_of_ascii(c: char)
    requires
        (c as u32) < 0x80,
    ensures
        is_space(c) <==> c == ' ' || c == '\t' || c == '\n' || c == '\r' || c == '\u{b}' || c == '\u{c}',
{
}

} // verus!
