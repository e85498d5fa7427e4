//! Words, hashtags and first lines of Unicode text.

use vstd::prelude::*;
use vstd::string::*;

verus! {

/// Whether `c` has the Unicode `White_Space` property, the set of characters
/// that Rust's `char::is_whitespace` accepts.
pub open spec fn is_whitespace_spec(c: char) -> bool {
    let u = c as u32;
    ||| 0x09 <= u <= 0x0D
    ||| u == 0x20
    ||| u == 0x85
    ||| u == 0xA0
    ||| u == 0x1680
    ||| 0x2000 <= u <= 0x200A
    ||| u == 0x2028
    ||| u == 0x2029
    ||| u == 0x202F
    ||| u == 0x205F
    ||| u == 0x3000
}

/// The length of the run of non-whitespace characters that `s` starts with.
pub open spec fn word_len(s: Seq<char>) -> nat
    decreases s.len(),
{
    if s.len() == 0 || is_whitespace_spec(s[0]) {
        0
    } else {
        1 + word_len(s.drop_first())
    }
}

/// The whitespace-separated words of `s`, in order: the maximal non-empty runs
/// of characters that are not whitespace.
pub open spec fn words(s: Seq<char>) -> Seq<Seq<char>>
    decreases s.len(),
{
    if s.len() == 0 {
        Seq::empty()
    } else if is_whitespace_spec(s[0]) {
        words(s.drop_first())
    } else {
        proof {
            lemma_word_len_bounds(s);
        }
        seq![s.take(word_len(s) as int)] + words(s.skip(word_len(s) as int))
    }
}

/// Whether a word is a hashtag: it starts with `#`.
pub open spec fn is_hashtag(w: Seq<char>) -> bool {
    w.len() > 0 && w[0] == '#'
}

/// The words of `s` that are hashtags, in order.
pub open spec fn hashtags_spec(s: Seq<char>) -> Seq<Seq<char>> {
    words(s).filter(|w: Seq<char>| is_hashtag(w))
}

/// The run length is at most the length of the text, and at least one where
/// the text starts with a character that is not whitespace.
pub proof fn lemma_word_len_bounds(s: Seq<char>)
    ensures
        word_len(s) <= s.len(),
        s.len() > 0 && !is_whitespace_spec(s[0]) ==> word_len(s) >= 1,
    decreases s.len(),
{
    if s.len() > 0 && !is_whitespace_spec(s[0]) {
        lemma_word_len_bounds(s.drop_first());
    }
}

/// A run of `k` non-whitespace characters followed by whitespace or the end of
/// the text is the run that `word_len` measures.
proof fn lemma_word_len_exact(s: Seq<char>, k: nat)
    requires
        k <= s.len(),
        forall|m: int| 0 <= m < k ==> !is_whitespace_spec(#[trigger] s[m]),
        k == s.len() || is_whitespace_spec(s[k as int]),
    ensures
        word_len(s) == k,
    decreases k,
{
    if k > 0 {
        assert(!is_whitespace_spec(s[0]));
        let t = s.drop_first();
        assert forall|m: int| 0 <= m < k - 1 implies !is_whitespace_spec(#[trigger] t[m]) by {
            assert(t[m] == s[m + 1]);
        }
        if k < s.len() {
            assert(t[k - 1] == s[k as int]);
        }
        lemma_word_len_exact(t, (k - 1) as nat);
    }
}

/// Leading whitespace adds no hashtag.
proof fn lemma_hashtags_skip_space(s: Seq<char>)
    requires
        s.len() > 0,
        is_whitespace_spec(s[0]),
    ensures
        hashtags_spec(s) == hashtags_spec(s.drop_first()),
{
}

/// A leading word of length `k` contributes itself, if it is a hashtag, before
/// the hashtags of the rest.
proof fn lemma_hashtags_skip_word(s: Seq<char>, k: nat)
    requires
        0 < k <= s.len(),
        forall|m: int| 0 <= m < k ==> !is_whitespace_spec(#[trigger] s[m]),
        k == s.len() || is_whitespace_spec(s[k as int]),
    ensures
        hashtags_spec(s) == (if s[0] == '#' {
            seq![s.take(k as int)]
        } else {
            Seq::<Seq<char>>::empty()
        }) + hashtags_spec(s.skip(k as int)),
{
    lemma_word_len_exact(s, k);
    assert(!is_whitespace_spec(s[0]));
    let w = s.take(k as int);
    let p = |x: Seq<char>| is_hashtag(x);
    assert(words(s) == seq![w] + words(s.skip(k as int)));
    Seq::filter_distributes_over_add(seq![w], words(s.skip(k as int)), p);
    reveal_with_fuel(Seq::filter, 2);
    assert(seq![w].drop_last() =~= Seq::<Seq<char>>::empty());
    if s[0] == '#' {
        assert(is_hashtag(w));
        assert(seq![w].filter(p) =~= seq![w]);
    } else {
        assert(!is_hashtag(w));
        assert(seq![w].filter(p) =~= Seq::<Seq<char>>::empty());
    }
}

/// The characters of the run that `word_len` measures are not whitespace.
proof fn lemma_word_len_prefix(s: Seq<char>)
    ensures
        forall|m: int| 0 <= m < word_len(s) ==> !is_whitespace_spec(#[trigger] s[m]),
    decreases s.len(),
{
    if s.len() > 0 && !is_whitespace_spec(s[0]) {
        lemma_word_len_prefix(s.drop_first());
        lemma_word_len_bounds(s.drop_first());
        assert forall|m: int| 0 <= m < word_len(s) implies !is_whitespace_spec(#[trigger] s[m]) by {
            if m > 0 {
                assert(s[m] == s.drop_first()[m - 1]);
            }
        }
    }
}

/// Every word is non-empty and holds no whitespace.
pub proof fn lemma_words_shape(s: Seq<char>)
    ensures
        forall|i: int|
            0 <= i < words(s).len() ==> #[trigger] words(s)[i].len() > 0 && forall|j: int|
                0 <= j < words(s)[i].len() ==> !is_whitespace_spec(#[trigger] words(s)[i][j]),
    decreases s.len(),
{
    if s.len() > 0 {
        if is_whitespace_spec(s[0]) {
            lemma_words_shape(s.drop_first());
            assert(words(s) == words(s.drop_first()));
        } else {
            lemma_word_len_bounds(s);
            lemma_word_len_prefix(s);
            let n = word_len(s) as int;
            lemma_words_shape(s.skip(n));
            let w = s.take(n);
            assert forall|i: int| 0 <= i < words(s).len() implies #[trigger] words(s)[i].len() > 0
                && forall|j: int|
                0 <= j < words(s)[i].len() ==> !is_whitespace_spec(#[trigger] words(s)[i][j]) by {
                if i == 0 {
                    assert(words(s)[0] == w);
                    assert forall|j: int| 0 <= j < w.len() implies !is_whitespace_spec(
                        #[trigger] w[j],
                    ) by {
                        assert(w[j] == s[j]);
                    }
                } else {
                    assert(words(s)[i] == words(s.skip(n))[i - 1]);
                }
            }
        }
    }
}

/// Every hashtag starts with `#`, is non-empty and holds no whitespace.
pub proof fn lemma_hashtags_shape(s: Seq<char>)
    ensures
        forall|i: int|
            0 <= i < hashtags_spec(s).len() ==> #[trigger] hashtags_spec(s)[i].len() > 0
                && hashtags_spec(s)[i][0] == '#' && forall|j: int|
                0 <= j < hashtags_spec(s)[i].len() ==> !is_whitespace_spec(
                    #[trigger] hashtags_spec(s)[i][j],
                ),
{
    lemma_words_shape(s);
    let pred = |w: Seq<char>| is_hashtag(w);
    assert forall|i: int| 0 <= i < hashtags_spec(s).len() implies #[trigger] hashtags_spec(
        s,
    )[i].len() > 0 && hashtags_spec(s)[i][0] == '#' && forall|j: int|
        0 <= j < hashtags_spec(s)[i].len() ==> !is_whitespace_spec(
            #[trigger] hashtags_spec(s)[i][j],
        ) by {
        let w = hashtags_spec(s)[i];
        words(s).lemma_filter_pred(pred, i);
        assert(words(s).filter(pred).contains(w));
        words(s).lemma_filter_contains_rev(pred, w);
        let k = choose|k: int| 0 <= k < words(s).len() && words(s)[k] == w;
        assert(words(s)[k].len() > 0);
    }
}

/// A text with no `#` has no hashtags.
pub proof fn lemma_no_hash_no_hashtags(s: Seq<char>)
    requires
        !s.contains('#'),
    ensures
        hashtags_spec(s).len() == 0,
    decreases s.len(),
{
    if hashtags_spec(s).len() > 0 {
        lemma_hashtags_shape(s);
        let w = hashtags_spec(s)[0];
        let pred = |x: Seq<char>| is_hashtag(x);
        assert(words(s).filter(pred).contains(w));
        words(s).lemma_filter_contains_rev(pred, w);
        lemma_words_are_infixes(s);
        let k = choose|k: int| 0 <= k < words(s).len() && words(s)[k] == w;
        assert(is_infix_of(words(s)[k], s));
        let a = choose|a: int|
            0 <= a <= s.len() - w.len() && w == #[trigger] s.subrange(a, a + w.len());
        assert(s[a] == w[0]);
    }
}

/// Whether `w` occurs in `s` as a stretch of consecutive characters.
pub open spec fn is_infix_of(w: Seq<char>, s: Seq<char>) -> bool {
    exists|a: int| 0 <= a <= s.len() - w.len() && w == #[trigger] s.subrange(a, a + w.len())
}

/// Every word is a stretch of the text.
pub proof fn lemma_words_are_infixes(s: Seq<char>)
    ensures
        forall|k: int| 0 <= k < words(s).len() ==> is_infix_of(#[trigger] words(s)[k], s),
    decreases s.len(),
{
    if s.len() > 0 {
        if is_whitespace_spec(s[0]) {
            let t = s.drop_first();
            lemma_words_are_infixes(t);
            assert forall|k: int| 0 <= k < words(s).len() implies is_infix_of(
                #[trigger] words(s)[k],
                s,
            ) by {
                let w = words(s)[k];
                assert(words(s) == words(t));
                assert(words(t)[k] == w);
                assert(is_infix_of(w, t));
                let a = choose|a: int|
                    0 <= a <= t.len() - w.len() && w == #[trigger] t.subrange(a, a + w.len());
                assert(w =~= s.subrange(a + 1, a + 1 + w.len()));
            }
        } else {
            lemma_word_len_bounds(s);
            let n = word_len(s) as int;
            let t = s.skip(n);
            lemma_words_are_infixes(t);
            assert forall|k: int| 0 <= k < words(s).len() implies is_infix_of(
                #[trigger] words(s)[k],
                s,
            ) by {
                let w = words(s)[k];
                assert(words(s) == seq![s.take(n)] + words(t));
                if k == 0 {
                    assert(w == s.take(n));
                    assert(w =~= s.subrange(0, 0 + w.len() as int));
                } else {
                    assert(w == words(t)[k - 1]);
                    assert(is_infix_of(w, t));
                    let a = choose|a: int|
                        0 <= a <= t.len() - w.len() && w == #[trigger] t.subrange(a, a + w.len());
                    assert(w =~= s.subrange(a + n, a + n + w.len()));
                    assert(0 <= a + n <= s.len() - w.len());
                }
            }
        }
    }
}

/// Whether the characters `i..j` of `s` are a word of `s`: a non-empty run of
/// characters that are not whitespace, with whitespace or an end of `s` on
/// either side.
pub open spec fn is_word_at(s: Seq<char>, i: int, j: int) -> bool {
    &&& 0 <= i < j <= s.len()
    &&& i == 0 || is_whitespace_spec(s[i - 1])
    &&& j == s.len() || is_whitespace_spec(s[j])
    &&& forall|k: int| i <= k < j ==> !is_whitespace_spec(#[trigger] s[k])
}

/// Whether `w` is a word of `s`, somewhere in it.
pub open spec fn is_word_of(w: Seq<char>, s: Seq<char>) -> bool {
    exists|i: int, j: int| is_word_at(s, i, j) && w == #[trigger] s.subrange(i, j)
}

/// The run that `word_len` measures ends at whitespace or at the end of the text.
proof fn lemma_word_len_end(s: Seq<char>)
    ensures
        word_len(s) < s.len() ==> is_whitespace_spec(s[word_len(s) as int]),
    decreases s.len(),
{
    if s.len() > 0 && !is_whitespace_spec(s[0]) {
        let t = s.drop_first();
        lemma_word_len_end(t);
        lemma_word_len_bounds(t);
        if word_len(s) < s.len() {
            assert(s[word_len(s) as int] == t[word_len(t) as int]);
        }
    }
}

/// Every element of `words(s)` is a word of `s`.
pub proof fn lemma_words_are_words(s: Seq<char>)
    ensures
        forall|k: int| 0 <= k < words(s).len() ==> is_word_of(#[trigger] words(s)[k], s),
    decreases s.len(),
{
    if s.len() > 0 {
        if is_whitespace_spec(s[0]) {
            let t = s.drop_first();
            lemma_words_are_words(t);
            assert(words(s) == words(t));
            assert forall|k: int| 0 <= k < words(s).len() implies is_word_of(
                #[trigger] words(s)[k],
                s,
            ) by {
                let w = words(t)[k];
                assert(is_word_of(w, t));
                let (i, j) = choose|i: int, j: int| is_word_at(t, i, j) && w == #[trigger] t.subrange(i, j);
                assert(t[i] == s[i + 1]);
                if i > 0 {
                    assert(t[i - 1] == s[i]);
                }
                if j < t.len() {
                    assert(t[j] == s[j + 1]);
                }
                assert forall|k2: int| i + 1 <= k2 < j + 1 implies !is_whitespace_spec(#[trigger] s[k2]) by {
                    assert(s[k2] == t[k2 - 1]);
                }
                assert(is_word_at(s, i + 1, j + 1));
                assert(w =~= s.subrange(i + 1, j + 1));
            }
        } else {
            lemma_word_len_bounds(s);
            lemma_word_len_prefix(s);
            lemma_word_len_end(s);
            let n = word_len(s) as int;
            let t = s.skip(n);
            lemma_words_are_words(t);
            assert(words(s) == seq![s.take(n)] + words(t));
            assert forall|k: int| 0 <= k < words(s).len() implies is_word_of(
                #[trigger] words(s)[k],
                s,
            ) by {
                if k == 0 {
                    assert(is_word_at(s, 0, n));
                    assert(words(s)[0] =~= s.subrange(0, n));
                } else {
                    let w = words(t)[k - 1];
                    assert(words(s)[k] == w);
                    assert(is_word_of(w, t));
                    let (i, j) = choose|i: int, j: int| is_word_at(t, i, j) && w == #[trigger] t.subrange(i, j);
                    assert(t[i] == s[i + n]);
                    if i == 0 {
                        if n < s.len() {
                            assert(t[0] == s[n]);
                        }
                        assert(false);
                    }
                    assert(t[i - 1] == s[i + n - 1]);
                    if j < t.len() {
                        assert(t[j] == s[j + n]);
                    }
                    assert forall|k2: int| i + n <= k2 < j + n implies !is_whitespace_spec(
                        #[trigger] s[k2],
                    ) by {
                        assert(s[k2] == t[k2 - n]);
                    }
                    assert(is_word_at(s, i + n, j + n));
                    assert(w =~= s.subrange(i + n, j + n));
                }
            }
        }
    }
}

/// Every word of `s` is an element of `words(s)`.
pub proof fn lemma_word_in_words(s: Seq<char>, i: int, j: int)
    requires
        is_word_at(s, i, j),
    ensures
        words(s).contains(s.subrange(i, j)),
    decreases s.len(),
{
    if is_whitespace_spec(s[0]) {
        let t = s.drop_first();
        assert(i > 0);
        if i > 1 {
            assert(t[i - 2] == s[i - 1]);
        }
        if j < s.len() {
            assert(t[j - 1] == s[j]);
        }
        assert forall|k: int| i - 1 <= k < j - 1 implies !is_whitespace_spec(#[trigger] t[k]) by {
            assert(t[k] == s[k + 1]);
        }
        lemma_word_in_words(t, i - 1, j - 1);
        assert(t.subrange(i - 1, j - 1) =~= s.subrange(i, j));
        assert(words(s) == words(t));
    } else {
        lemma_word_len_bounds(s);
        lemma_word_len_prefix(s);
        let n = word_len(s) as int;
        let t = s.skip(n);
        assert(words(s) == seq![s.take(n)] + words(t));
        if i == 0 {
            lemma_word_len_exact(s, j as nat);
            assert(s.take(n) =~= s.subrange(0, j));
            assert(words(s)[0] == s.subrange(0, j));
        } else {
            assert(is_whitespace_spec(s[i - 1]));
            assert(n <= i - 1);
            assert(t[i - n - 1] == s[i - 1]);
            if j < s.len() {
                assert(t[j - n] == s[j]);
            }
            assert forall|k: int| i - n <= k < j - n implies !is_whitespace_spec(#[trigger] t[k]) by {
                assert(t[k] == s[k + n]);
            }
            lemma_word_in_words(t, i - n, j - n);
            assert(t.subrange(i - n, j - n) =~= s.subrange(i, j));
            let w = s.subrange(i, j);
            let m = choose|m: int| 0 <= m < words(t).len() && words(t)[m] == w;
            assert(words(s)[m + 1] == w);
        }
    }
}

/// The hashtags of `s` are exactly its words that start with `#`: a stretch of
/// `s` is among them just when it is a maximal run of non-whitespace characters
/// whose first character is `#`.
pub proof fn lemma_hashtags_exactly(s: Seq<char>)
    ensures
        forall|w: Seq<char>|
            #[trigger] hashtags_spec(s).contains(w) <==> (w.len() > 0 && w[0] == '#' && is_word_of(
                w,
                s,
            )),
{
    lemma_words_are_words(s);
    let pred = |x: Seq<char>| is_hashtag(x);
    assert forall|w: Seq<char>| #[trigger] hashtags_spec(s).contains(w) <==> (w.len() > 0 && w[0]
        == '#' && is_word_of(w, s)) by {
        if hashtags_spec(s).contains(w) {
            words(s).lemma_filter_contains_rev(pred, w);
            let k = choose|k: int| 0 <= k < words(s).len() && words(s)[k] == w;
            let f = words(s).filter(pred);
            let j = choose|j: int| 0 <= j < f.len() && f[j] == w;
            words(s).lemma_filter_pred(pred, j);
        }
        if w.len() > 0 && w[0] == '#' && is_word_of(w, s) {
            let (i, j) = choose|i: int, j: int| is_word_at(s, i, j) && w == #[trigger] s.subrange(i, j);
            lemma_word_in_words(s, i, j);
            let k = choose|k: int| 0 <= k < words(s).len() && words(s)[k] == w;
            words(s).lemma_filter_contains(pred, k);
        }
    }
}

/// Whether `c` is whitespace, as `char::is_whitespace` decides it.
pub fn is_whitespace(c: char) -> (b: bool)
    ensures
        b == is_whitespace_spec(c),
{
    let u = c as u32;
    (0x09 <= u && u <= 0x0D) || u == 0x20 || u == 0x85 || u == 0xA0 || u == 0x1680 || (0x2000
        <= u && u <= 0x200A) || u == 0x2028 || u == 0x2029 || u == 0x202F || u == 0x205F || u
        == 0x3000
}

/// The characters of `text`, in order.
fn chars_of(text: &str) -> (v: Vec<char>)
    ensures
        v@ == text@,
{
    let n = text.unicode_len();
    let mut v: Vec<char> = Vec::new();
    let mut i: usize = 0;
    while i < n
        invariant
            n == text@.len(),
            i <= n,
            v@ == text@.take(i as int),
        decreases n - i,
    {
        let c = text.get_char(i);
        v.push(c);
        i += 1;
        assert(v@ =~= text@.take(i as int));
    }
    assert(text@.take(n as int) =~= text@);
    v
}

/// The hashtags of `text`: its whitespace-separated words that start with `#`,
/// in order, as slices of `text`.
pub fn hashtags<'a>(text: &'a str) -> (tags: Vec<&'a str>)
    ensures
        tags@.map_values(|t: &str| t@) == hashtags_spec(text@),
{
    let chars = chars_of(text);
    let n = chars.len();
    let ghost s = text@;
    let mut tags: Vec<&'a str> = Vec::new();
    let mut i: usize = 0;
    assert(s.skip(0) =~= s);
    while i < n
        invariant
            s == text@,
            chars@ == s,
            n == s.len(),
            i <= n,
            tags@.map_values(|t: &str| t@) + hashtags_spec(s.skip(i as int)) == hashtags_spec(s),
        decreases n - i,
    {
        if is_whitespace(chars[i]) {
            proof {
                lemma_hashtags_skip_space(s.skip(i as int));
                assert(s.skip(i as int).drop_first() =~= s.skip(i + 1));
            }
            i += 1;
        } else {
            let start = i;
            while i < n && !is_whitespace(chars[i])
                invariant
                    s == text@,
                    chars@ == s,
                    n == s.len(),
                    start < n,
                    start <= i <= n,
                    forall|m: int| start <= m < i ==> !is_whitespace_spec(#[trigger] s[m]),
                decreases n - i,
            {
                i += 1;
            }
            let ghost rest = s.skip(start as int);
            let ghost k = (i - start) as nat;
            proof {
                assert forall|m: int| 0 <= m < k implies !is_whitespace_spec(#[trigger] rest[m]) by {
                    assert(rest[m] == s[start + m]);
                }
                if i < n {
                    assert(rest[k as int] == s[i as int]);
                }
                assert(!is_whitespace_spec(s[start as int]));
                assert(i > start);
                lemma_hashtags_skip_word(rest, k);
                assert(rest.skip(k as int) =~= s.skip(i as int));
                assert(rest.take(k as int) =~= s.subrange(start as int, i as int));
                assert(rest[0] == s[start as int]);
            }
            if chars[start] == '#' {
                let tag = text.substring_char(start, i);
                let ghost before = tags@.map_values(|t: &str| t@);
                tags.push(tag);
                proof {
                    assert(tags@.map_values(|t: &str| t@) =~= before.push(tag@));
                    assert(before.push(tag@) + hashtags_spec(s.skip(i as int)) =~= before + (seq![
                        tag@,
                    ] + hashtags_spec(s.skip(i as int))));
                }
            } else {
                proof {
                    assert(Seq::<Seq<char>>::empty() + hashtags_spec(s.skip(i as int))
                        =~= hashtags_spec(s.skip(i as int)));
                }
            }
        }
    }
    proof {
        assert(s.skip(n as int) =~= Seq::<char>::empty());
        reveal_with_fuel(Seq::filter, 1);
        assert(hashtags_spec(Seq::<char>::empty()) =~= Seq::<Seq<char>>::empty());
        assert(tags@.map_values(|t: &str| t@) + Seq::<Seq<char>>::empty() =~= tags@.map_values(
            |t: &str| t@,
        ));
    }
    tags
}

/// Whether `line` is the first line of `text`: the part of `text` before its
/// first `\n`, or all of `text` where it holds none.
pub open spec fn is_first_line(text: Seq<char>, line: Seq<char>) -> bool {
    &&& line.len() <= text.len()
    &&& line == text.take(line.len() as int)
    &&& !line.contains('\n')
    &&& line.len() < text.len() ==> text[line.len() as int] == '\n'
}

/// The first line of `text`. This is what `text.split("\n").next()` yields.
pub fn first_line<'a>(text: &'a str) -> (line: &'a str)
    ensures
        is_first_line(text@, line@),
{
    let chars = chars_of(text);
    let n = chars.len();
    let mut i: usize = 0;
    while i < n && chars[i] != '\n'
        invariant
            chars@ == text@,
            n == text@.len(),
            i <= n,
            forall|m: int| 0 <= m < i ==> text@[m] != '\n',
        decreases n - i,
    {
        i += 1;
    }
    let line = text.substring_char(0, i);
    proof {
        assert(line@ =~= text@.take(i as int));
        if line@.contains('\n') {
            let m = choose|m: int| 0 <= m < line@.len() && line@[m] == '\n';
            assert(text@[m] == '\n');
        }
    }
    line
}

} // verus!
