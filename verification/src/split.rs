//! Splitting text into pieces and joining pieces back together.
use vstd::prelude::*;

use crate::text::{
    chars_of, concat_chars, copy_range, is_whitespace, is_ws, lemma_trim_start_suffix, trim_start,
};

verus! {

// ---------------------------------------------------------------------------
// Joining
// ---------------------------------------------------------------------------

/// The pieces one after another with `sep` between neighbours (`[S]::join`).
pub open spec fn join(parts: Seq<Seq<char>>, sep: Seq<char>) -> Seq<char>
    decreases parts.len(),
{
    if parts.len() == 0 {
        Seq::empty()
    } else if parts.len() == 1 {
        parts[0]
    } else {
        join(parts.drop_last(), sep) + sep + parts.last()
    }
}

/// The pieces one after another (what collecting them into one string gives).
pub open spec fn concat_all(parts: Seq<Seq<char>>) -> Seq<char> {
    join(parts, Seq::empty())
}

/// The characters of each string, in order.
pub fn chars_of_all(parts: &Vec<String>) -> (r: Vec<Vec<char>>)
    ensures
        r.deep_view() == parts.deep_view(),
{
    let mut r: Vec<Vec<char>> = Vec::new();
    let mut i: usize = 0;
    while i < parts.len()
        invariant
            i <= parts.len(),
            r.len() == i,
            forall|k: int| 0 <= k < i ==> (#[trigger] r@[k])@ == parts@[k]@,
        decreases parts.len() - i,
    {
        let cs = chars_of(parts[i].as_str());
        r.push(cs);
        i = i + 1;
    }
    assert(r.deep_view() =~~= parts.deep_view());
    r
}

/// The pieces joined with `sep` between neighbours.
pub fn join_chars(parts: &Vec<Vec<char>>, sep: &Vec<char>) -> (r: Vec<char>)
    ensures
        r@ == join(parts.deep_view(), sep@),
{
    let mut r: Vec<char> = Vec::new();
    let mut i: usize = 0;
    while i < parts.len()
        invariant
            i <= parts.len(),
            r@ == join(parts.deep_view().take(i as int), sep@),
        decreases parts.len() - i,
    {
        let ghost before = parts.deep_view().take(i as int);
        if i == 0 {
            r = copy_range(&parts[0], 0, parts[0].len());
            assert(parts[0]@.subrange(0, parts[0].len() as int) =~= parts[0]@);
        } else {
            let with_sep = concat_chars(&r, sep);
            r = concat_chars(&with_sep, &parts[i]);
        }
        i = i + 1;
        assert(parts.deep_view().take(i as int).drop_last() =~= before);
    }
    assert(parts.deep_view().take(parts.len() as int) =~= parts.deep_view());
    r
}

/// The strings joined with `sep` between neighbours.
pub fn join_strings(parts: &Vec<String>, sep: &str) -> (r: Vec<char>)
    ensures
        r@ == join(parts.deep_view(), sep@),
{
    let cs = chars_of_all(parts);
    let sep_chars = chars_of(sep);
    join_chars(&cs, &sep_chars)
}

// ---------------------------------------------------------------------------
// Splitting at a character
// ---------------------------------------------------------------------------

/// The index of the first `c` in `s`.
pub open spec fn char_index(s: Seq<char>, c: char) -> Option<nat>
    decreases s.len(),
{
    if s.len() == 0 {
        None
    } else if s[0] == c {
        Some(0)
    } else {
        match char_index(s.drop_first(), c) {
            Some(k) => Some(k + 1),
            None => None,
        }
    }
}

/// `char_index` is the first position of `c`.
pub proof fn lemma_char_index(s: Seq<char>, c: char)
    ensures
        char_index(s, c) matches Some(k) ==> k < s.len() && s[k as int] == c && forall|j: int|
            0 <= j < k ==> s[j] != c,
        char_index(s, c) is None ==> forall|j: int| 0 <= j < s.len() ==> s[j] != c,
    decreases s.len(),
{
    if s.len() > 0 && s[0] != c {
        lemma_char_index(s.drop_first(), c);
        if let Some(k) = char_index(s, c) {
            assert forall|j: int| 0 <= j < k implies s[j] != c by {
                if j > 0 {
                    assert(s[j] == s.drop_first()[j - 1]);
                }
            }
        } else {
            assert forall|j: int| 0 <= j < s.len() implies s[j] != c by {
                if j > 0 {
                    assert(s[j] == s.drop_first()[j - 1]);
                }
            }
        }
    }
}

/// The position of a `c` preceded by none is what `char_index` gives.
proof fn lemma_char_index_at(s: Seq<char>, c: char, m: int)
    requires
        0 <= m <= s.len(),
        forall|j: int| 0 <= j < m ==> s[j] != c,
        m < s.len() ==> s[m] == c,
    ensures
        m < s.len() ==> char_index(s, c) == Some(m as nat),
        m == s.len() ==> char_index(s, c) is None,
{
    lemma_char_index(s, c);
}

/// The pieces of `s` between occurrences of `c` (`str::split` with a character).
pub open spec fn split(s: Seq<char>, c: char) -> Seq<Seq<char>>
    decreases s.len(),
{
    match char_index(s, c) {
        Some(k) => {
            if k < s.len() {
                seq![s.take(k as int)] + split(s.skip(k + 1int), c)
            } else {
                seq![s]
            }
        },
        None => seq![s],
    }
}

/// Joining `a` in front of other pieces puts `a` and the separator before
/// their join.
pub proof fn lemma_join_prepend(a: Seq<char>, rest: Seq<Seq<char>>, sep: Seq<char>)
    ensures
        join(seq![a] + rest, sep) == if rest.len() == 0 {
            a
        } else {
            a + sep + join(rest, sep)
        },
    decreases rest.len(),
{
    let all = seq![a] + rest;
    if rest.len() == 0 {
        assert(all =~= seq![a]);
    } else if rest.len() == 1 {
        assert(all.drop_last() =~= seq![a]);
        assert(all.last() == rest[0]);
        assert(join(seq![a], sep) == a);
        assert(join(all, sep) == join(all.drop_last(), sep) + sep + all.last());
        assert(join(rest, sep) == rest[0]);
    } else {
        lemma_join_prepend(a, rest.drop_last(), sep);
        assert(all.drop_last() =~= seq![a] + rest.drop_last());
        assert(all.last() == rest.last());
        assert(join(all, sep) == join(all.drop_last(), sep) + sep + all.last());
        assert(join(rest, sep) == join(rest.drop_last(), sep) + sep + rest.last());
        assert(join(all, sep) =~= a + sep + join(rest, sep));
    }
}

/// Putting pieces one after another puts the first piece in front of the
/// rest; no pieces give nothing.
pub proof fn lemma_concat_all_prepend(a: Seq<char>, rest: Seq<Seq<char>>)
    ensures
        concat_all(seq![a] + rest) == a + concat_all(rest),
        concat_all(Seq::empty()) == Seq::<char>::empty(),
{
    lemma_join_prepend(a, rest, Seq::empty());
    if rest.len() == 0 {
        assert(a + concat_all(rest) =~= a);
    } else {
        assert(a + Seq::<char>::empty() =~= a);
    }
}

/// Splitting at `c` gives at least one piece, none of which holds `c`; and
/// joining the pieces with `c` gives back what was split.
pub proof fn lemma_split_join(s: Seq<char>, c: char)
    ensures
        split(s, c).len() > 0,
        forall|i: int, j: int|
            0 <= i < split(s, c).len() && 0 <= j < split(s, c)[i].len() ==> #[trigger] split(
                s,
                c,
            )[i][j] != c,
        join(split(s, c), seq![c]) == s,
    decreases s.len(),
{
    lemma_char_index(s, c);
    match char_index(s, c) {
        Some(k) => {
            let head = s.take(k as int);
            let tail = s.skip(k + 1int);
            lemma_split_join(tail, c);
            let pieces = split(s, c);
            assert(pieces == seq![head] + split(tail, c));
            lemma_join_prepend(head, split(tail, c), seq![c]);
            assert(head + seq![c] + tail =~= s);
            assert forall|i: int, j: int|
                0 <= i < pieces.len() && 0 <= j < pieces[i].len() implies #[trigger] pieces[i][j]
                != c by {
                if i > 0 {
                    assert(pieces[i] == split(tail, c)[i - 1]);
                    assert(split(tail, c)[i - 1][j] != c);
                }
            }
        },
        None => {
            assert(split(s, c) == seq![s]);
        },
    }
}

/// The pieces of `s` between occurrences of `c`.
pub fn split_chars(s: &Vec<char>, c: char) -> (r: Vec<Vec<char>>)
    ensures
        r.deep_view() == split(s@, c),
{
    let n = s.len();
    let mut r: Vec<Vec<char>> = Vec::new();
    let mut start: usize = 0;
    let mut i: usize = 0;
    assert(s@.skip(0) =~= s@);
    while i < n
        invariant
            start <= i <= n == s.len(),
            split(s@, c) == r.deep_view() + split(s@.skip(start as int), c),
            forall|j: int| start <= j < i ==> s@[j] != c,
        decreases n - i,
    {
        if s[i] == c {
            let ghost rest = s@.skip(start as int);
            proof {
                lemma_char_index_at(rest, c, i - start);
                assert(rest.take(i - start) =~= s@.subrange(start as int, i as int));
                assert(rest.skip(i - start + 1) =~= s@.skip(i + 1));
            }
            let piece = copy_range(s, start, i);
            let ghost before = r.deep_view();
            r.push(piece);
            assert(r.deep_view() =~~= before.push(piece@));
            start = i + 1;
            assert(split(s@, c) =~= r.deep_view() + split(s@.skip(start as int), c));
        }
        i = i + 1;
    }
    let ghost rest = s@.skip(start as int);
    proof {
        lemma_char_index_at(rest, c, rest.len() as int);
        assert(rest =~= s@.subrange(start as int, n as int));
    }
    let piece = copy_range(s, start, n);
    let ghost before = r.deep_view();
    r.push(piece);
    assert(r.deep_view() =~~= before.push(piece@));
    r
}

// ---------------------------------------------------------------------------
// Words
// ---------------------------------------------------------------------------

/// How many non-whitespace characters `s` starts with.
pub open spec fn word_len(s: Seq<char>) -> nat
    decreases s.len(),
{
    if s.len() > 0 && !is_ws(s[0]) {
        1 + word_len(s.drop_first())
    } else {
        0
    }
}

/// The words of a sequence depend only on what is left after leading whitespace.
proof fn lemma_words_trim(a: Seq<char>, b: Seq<char>)
    requires
        trim_start(a) == trim_start(b),
    ensures
        words(a) == words(b),
{
}

proof fn lemma_word_len(s: Seq<char>, m: int)
    requires
        0 <= m <= s.len(),
        forall|j: int| 0 <= j < m ==> !is_ws(s[j]),
        m < s.len() ==> is_ws(s[m]),
    ensures
        word_len(s) == m,
    decreases m,
{
    if m > 0 {
        assert forall|j: int| 0 <= j < m - 1 implies !is_ws(s.drop_first()[j]) by {
            assert(s.drop_first()[j] == s[j + 1]);
        }
        if m < s.len() {
            assert(s.drop_first()[m - 1] == s[m]);
        }
        lemma_word_len(s.drop_first(), m - 1);
    }
}

pub proof fn lemma_word_len_bound(s: Seq<char>)
    ensures
        word_len(s) <= s.len(),
    decreases s.len(),
{
    if s.len() > 0 && !is_ws(s[0]) {
        lemma_word_len_bound(s.drop_first());
    }
}

/// The maximal runs of non-whitespace characters of `s`, in order
/// (`str::split_whitespace`).
pub open spec fn words(s: Seq<char>) -> Seq<Seq<char>>
    decreases s.len(),
{
    let t = trim_start(s);
    if t.len() == 0 {
        Seq::empty()
    } else {
        proof {
            lemma_trim_start_suffix(s);
            lemma_word_len_bound(t);
        }
        seq![t.take(word_len(t) as int)] + words(t.skip(word_len(t) as int))
    }
}

/// The first `word_len(s)` characters of `s` are not whitespace.
proof fn lemma_word_len_chars(s: Seq<char>)
    ensures
        word_len(s) <= s.len(),
        forall|j: int| 0 <= j < word_len(s) ==> !is_ws(#[trigger] s[j]),
        s.len() > 0 && !is_ws(s[0]) ==> word_len(s) > 0,
    decreases s.len(),
{
    lemma_word_len_bound(s);
    if s.len() > 0 && !is_ws(s[0]) {
        lemma_word_len_chars(s.drop_first());
        assert forall|j: int| 0 <= j < word_len(s) implies !is_ws(#[trigger] s[j]) by {
            if j > 0 {
                assert(s[j] == s.drop_first()[j - 1]);
            }
        }
    }
}

/// Every word is a non-empty run of characters that are not whitespace,
/// and a text without whitespace is one word (or none when it is empty), so
/// normalising its whitespace leaves it as it is.
pub proof fn lemma_words_shape(s: Seq<char>)
    ensures
        forall|i: int| 0 <= i < words(s).len() ==> (#[trigger] words(s)[i]).len() > 0,
        forall|i: int, j: int|
            0 <= i < words(s).len() && 0 <= j < words(s)[i].len() ==> !is_ws(
                #[trigger] words(s)[i][j],
            ),
        (forall|j: int| 0 <= j < s.len() ==> !is_ws(#[trigger] s[j])) ==> words(s) == if s.len()
            == 0 {
            Seq::<Seq<char>>::empty()
        } else {
            seq![s]
        },
        (forall|j: int| 0 <= j < s.len() ==> !is_ws(#[trigger] s[j])) ==> normalize_ws(s) == s,
    decreases s.len(),
{
    let t = trim_start(s);
    lemma_trim_start_suffix(s);
    if t.len() > 0 {
        lemma_word_len_chars(t);
        let n = word_len(t) as int;
        let w = t.take(n);
        let rest = t.skip(n);
        lemma_words_shape(rest);
        let ws = words(s);
        assert(ws == seq![w] + words(rest));
        assert forall|i: int| 0 <= i < ws.len() implies (#[trigger] ws[i]).len() > 0 by {
            if i > 0 {
                assert(ws[i] == words(rest)[i - 1]);
            }
        }
        assert forall|i: int, j: int| 0 <= i < ws.len() && 0 <= j < ws[i].len() implies !is_ws(
            #[trigger] ws[i][j],
        ) by {
            if i > 0 {
                assert(ws[i] == words(rest)[i - 1]);
                assert(words(rest)[i - 1][j] == ws[i][j]);
            } else {
                assert(ws[0][j] == t[j]);
            }
        }
        if forall|j: int| 0 <= j < s.len() ==> !is_ws(#[trigger] s[j]) {
            if s.len() > 0 {
                assert(!is_ws(s[0]));
            }
            assert(t == s);
            lemma_word_len(s, s.len() as int);
            assert(w =~= s);
            assert(rest.len() == 0);
            assert(words(rest) =~= Seq::<Seq<char>>::empty()) by {
                assert(trim_start(rest) == rest);
            }
            assert(ws =~= seq![s]);
            assert(join(seq![s], seq![' ']) == s);
        }
    } else {
        if forall|j: int| 0 <= j < s.len() ==> !is_ws(#[trigger] s[j]) {
            if s.len() > 0 {
                assert(!is_ws(s[0]));
                assert(t == s);
            }
        }
    }
}

/// Leading whitespace followed by `x` trims to what `x` trims to.
proof fn lemma_trim_start_after_ws(p: Seq<char>, x: Seq<char>)
    requires
        forall|i: int| 0 <= i < p.len() ==> is_ws(#[trigger] p[i]),
    ensures
        trim_start(p + x) == trim_start(x),
    decreases p.len(),
{
    if p.len() > 0 {
        assert((p + x)[0] == p[0]);
        assert((p + x).drop_first() =~= p.drop_first() + x);
        assert forall|i: int| 0 <= i < p.drop_first().len() implies is_ws(
            #[trigger] p.drop_first()[i],
        ) by {
            assert(p.drop_first()[i] == p[i + 1]);
        }
        lemma_trim_start_after_ws(p.drop_first(), x);
    } else {
        assert(p + x =~= x);
    }
}

/// Trimming the front of `a + y` only touches `a` when `a` holds more than
/// whitespace.
proof fn lemma_trim_start_concat(a: Seq<char>, y: Seq<char>)
    requires
        trim_start(a).len() > 0,
    ensures
        trim_start(a + y) == trim_start(a) + y,
    decreases a.len(),
{
    if a.len() > 0 && is_ws(a[0]) {
        assert((a + y)[0] == a[0]);
        assert((a + y).drop_first() =~= a.drop_first() + y);
        lemma_trim_start_concat(a.drop_first(), y);
    } else {
        assert((a + y)[0] == a[0]);
    }
}

/// A word that ends where `t` ends, or before, ends in the same place when
/// whitespace follows `t`.
proof fn lemma_word_len_concat(t: Seq<char>, y: Seq<char>)
    requires
        y.len() > 0,
        is_ws(y[0]),
    ensures
        word_len(t + y) == word_len(t),
    decreases t.len(),
{
    if t.len() > 0 {
        assert((t + y)[0] == t[0]);
        if !is_ws(t[0]) {
            assert((t + y).drop_first() =~= t.drop_first() + y);
            lemma_word_len_concat(t.drop_first(), y);
        }
    } else {
        assert(t + y =~= y);
    }
}

/// A whitespace character splits words: the words of `a`, a whitespace
/// character and `b` are the words of `a` followed by those of `b`.
pub proof fn lemma_words_concat(a: Seq<char>, w: char, b: Seq<char>)
    requires
        is_ws(w),
    ensures
        words(a + seq![w] + b) == words(a) + words(b),
    decreases a.len(),
{
    let y = seq![w] + b;
    assert(a + seq![w] + b =~= a + y);
    let t = trim_start(a);
    lemma_trim_start_suffix(a);
    if t.len() == 0 {
        let p = a;
        assert forall|i: int| 0 <= i < p.len() implies is_ws(#[trigger] p[i]) by {}
        lemma_trim_start_after_ws(a, y);
        assert(y[0] == w);
        assert(y.drop_first() =~= b);
        assert(trim_start(y) == trim_start(b));
        lemma_words_trim(a + y, b);
        assert(words(a) =~= Seq::<Seq<char>>::empty());
        assert(words(a) + words(b) =~= words(b));
    } else {
        lemma_trim_start_concat(a, y);
        let ty = t + y;
        assert(trim_start(a + y) == ty);
        assert(y[0] == w);
        lemma_word_len_concat(t, y);
        lemma_word_len_chars(t);
        let n = word_len(t) as int;
        assert(n > 0);
        assert(ty.take(n) =~= t.take(n));
        assert(ty.skip(n) =~= t.skip(n) + y);
        let rest = t.skip(n);
        assert(rest.len() < a.len());
        lemma_words_concat(rest, w, b);
        assert(rest + seq![w] + b =~= rest + y);
        assert(words(a + y) == seq![t.take(n)] + words(ty.skip(n)));
        assert(words(a) == seq![t.take(n)] + words(rest));
        assert(words(a + y) =~= words(a) + words(b));
    }
}

/// Two runs of non-whitespace characters with whitespace between them
/// normalise to the two runs with one space between them.
pub proof fn lemma_normalize_two_words(a: Seq<char>, w: char, b: Seq<char>)
    requires
        is_ws(w),
        a.len() > 0,
        b.len() > 0,
        forall|i: int| 0 <= i < a.len() ==> !is_ws(#[trigger] a[i]),
        forall|i: int| 0 <= i < b.len() ==> !is_ws(#[trigger] b[i]),
    ensures
        normalize_ws(a + seq![w] + b) == a + seq![' '] + b,
{
    lemma_words_concat(a, w, b);
    lemma_words_shape(a);
    lemma_words_shape(b);
    let ws = words(a + seq![w] + b);
    assert(ws =~= seq![a, b]);
    assert(seq![a, b].drop_last() =~= seq![a]);
    assert(join(seq![a], seq![' ']) == a);
}

/// The words of `s`.
pub fn split_words(s: &Vec<char>) -> (r: Vec<Vec<char>>)
    ensures
        r.deep_view() == words(s@),
{
    let n = s.len();
    let mut r: Vec<Vec<char>> = Vec::new();
    let mut i: usize = 0;
    assert(s@.skip(0) =~= s@);
    while i < n
        invariant
            i <= n == s.len(),
            words(s@) == r.deep_view() + words(s@.skip(i as int)),
        decreases n - i,
    {
        let ghost rest = s@.skip(i as int);
        if is_whitespace(s[i]) {
            assert(rest.drop_first() =~= s@.skip(i + 1));
            assert(trim_start(rest) == trim_start(s@.skip(i + 1)));
            proof {
                lemma_words_trim(rest, s@.skip(i + 1));
            }
            i = i + 1;
        } else {
            let mut j = i + 1;
            while j < n && !is_whitespace(s[j])
                invariant
                    i < j <= n == s.len(),
                    forall|k: int| i <= k < j ==> !is_ws(s@[k]),
                decreases n - j,
            {
                j = j + 1;
            }
            proof {
                assert(trim_start(rest) == rest);
                lemma_word_len(rest, j - i);
                lemma_trim_start_suffix(s@);
                assert(rest.take(j - i) =~= s@.subrange(i as int, j as int));
                assert(rest.skip(j - i) =~= s@.skip(j as int));
            }
            let w = copy_range(s, i, j);
            let ghost before = r.deep_view();
            r.push(w);
            assert(r.deep_view() =~~= before.push(w@));
            i = j;
            assert(words(s@) =~= r.deep_view() + words(s@.skip(i as int)));
        }
    }
    assert(words(s@.skip(n as int)) =~= Seq::<Seq<char>>::empty());
    assert(words(s@) =~= r.deep_view());
    r
}

/// `s` with its words joined by single spaces: what
/// `split_whitespace().collect::<Vec<_>>().join(" ")` gives.
pub open spec fn normalize_ws(s: Seq<char>) -> Seq<char> {
    join(words(s), seq![' '])
}

/// `s` with leading and trailing whitespace dropped and every inner run of
/// whitespace replaced by one space.
pub fn normalize_whitespace(s: &Vec<char>) -> (r: Vec<char>)
    ensures
        r@ == normalize_ws(s@),
{
    let ws = split_words(s);
    let mut sep: Vec<char> = Vec::new();
    sep.push(' ');
    assert(sep@ =~= seq![' ']);
    join_chars(&ws, &sep)
}

} // verus!
