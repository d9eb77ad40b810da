//! Character-level helpers: Unicode white space, splitting a line into
//! words, and locating the first colon of a line.
use vstd::prelude::*;

verus! {

/// The characters that carry Unicode's `White_Space` property.
pub open spec fn is_white_space(c: char) -> bool {
    ('\u{9}' <= c && c <= '\u{d}') || c == ' ' || c == '\u{85}' || c == '\u{a0}'
        || c == '\u{1680}' || ('\u{2000}' <= c && c <= '\u{200a}') || c == '\u{2028}'
        || c == '\u{2029}' || c == '\u{202f}' || c == '\u{205f}' || c == '\u{3000}'
}

/// Executable test for `is_white_space`.
pub fn white_space(c: char) -> (r: bool)
    ensures
        r == is_white_space(c),
{
    ('\u{9}' <= c && c <= '\u{d}') || c == ' ' || c == '\u{85}' || c == '\u{a0}'
        || c == '\u{1680}' || ('\u{2000}' <= c && c <= '\u{200a}') || c == '\u{2028}'
        || c == '\u{2029}' || c == '\u{202f}' || c == '\u{205f}' || c == '\u{3000}'
}

/// The word in progress, `cur`, closed off: one word if it is non-empty.
pub open spec fn close_word(cur: Seq<char>) -> Seq<Seq<char>> {
    if cur.len() > 0 {
        seq![cur]
    } else {
        Seq::empty()
    }
}

/// The words of `s`, read left to right, where `cur` is the word that was
/// already in progress before `s`.
pub open spec fn words_after(s: Seq<char>, cur: Seq<char>) -> Seq<Seq<char>>
    decreases s.len(),
{
    if s.len() == 0 {
        close_word(cur)
    } else if is_white_space(s[0]) {
        close_word(cur) + words_after(s.drop_first(), Seq::empty())
    } else {
        words_after(s.drop_first(), cur.push(s[0]))
    }
}

/// The maximal runs of non-white-space characters of `s`, in order.
pub open spec fn words(s: Seq<char>) -> Seq<Seq<char>> {
    words_after(s, Seq::empty())
}

/// The view of each string of `v`.
pub open spec fn string_views(v: Seq<String>) -> Seq<Seq<char>> {
    v.map_values(|w: String| w@)
}

/// Splits `s` into its words: the maximal runs of characters that are not
/// white space, in order.
pub fn split_words(s: &str) -> (r: Vec<String>)
    ensures
        string_views(r@) == words(s@),
{
    let n = s.unicode_len();
    let mut out: Vec<String> = Vec::new();
    let mut start: usize = 0;
    let mut i: usize = 0;
    assert(s@.subrange(0, n as int) =~= s@);
    assert(s@.subrange(0, 0) =~= Seq::<char>::empty());
    assert(string_views(out@) + words(s@) =~= words(s@));
    while i < n
        invariant
            n == s@.len(),
            start <= i <= n,
            words(s@) == string_views(out@) + words_after(
                s@.subrange(i as int, n as int),
                s@.subrange(start as int, i as int),
            ),
        decreases n - i,
    {
        let c = s.get_char(i);
        let ghost rest = s@.subrange(i as int, n as int);
        let ghost cur = s@.subrange(start as int, i as int);
        assert(rest.drop_first() =~= s@.subrange(i + 1, n as int));
        if white_space(c) {
            let ghost before = out@;
            if start < i {
                let w = s.substring_char(start, i).to_owned();
                out.push(w);
            }
            assert(string_views(out@) =~= string_views(before) + close_word(cur));
            assert(s@.subrange(i + 1, i + 1) =~= Seq::<char>::empty());
            start = i + 1;
        } else {
            assert(cur.push(c) =~= s@.subrange(start as int, i + 1));
        }
        i = i + 1;
    }
    let ghost before = out@;
    let ghost cur = s@.subrange(start as int, i as int);
    if start < i {
        let w = s.substring_char(start, i).to_owned();
        out.push(w);
    }
    assert(string_views(out@) =~= string_views(before) + close_word(cur));
    assert(s@.subrange(n as int, n as int) =~= Seq::<char>::empty());
    assert(words(s@) =~= string_views(out@));
    out
}

/// `s` holds a colon somewhere.
pub open spec fn has_colon(s: Seq<char>) -> bool {
    exists|p: int| 0 <= p < s.len() && s[p] == ':'
}

/// `p` is the position of the first colon of `s`.
pub open spec fn is_first_colon(s: Seq<char>, p: int) -> bool {
    &&& 0 <= p < s.len()
    &&& s[p] == ':'
    &&& forall|j: int| 0 <= j < p ==> s[j] != ':'
}

/// The position of the first colon of `s` (meaningful where `has_colon(s)`).
pub open spec fn first_colon(s: Seq<char>) -> int {
    choose|p: int| is_first_colon(s, p)
}

/// There is at most one first colon.
pub proof fn lemma_first_colon_unique(s: Seq<char>, p: int)
    requires
        is_first_colon(s, p),
    ensures
        first_colon(s) == p,
        has_colon(s),
{
    let q = first_colon(s);
    assert(is_first_colon(s, q));
    if q < p {
        assert(s[q] != ':');
    } else if p < q {
        assert(s[p] != ':');
    }
}

/// A string that holds a colon has a first one.
pub proof fn lemma_first_colon_exists(s: Seq<char>)
    requires
        has_colon(s),
    ensures
        is_first_colon(s, first_colon(s)),
    decreases s.len(),
{
    if s[0] == ':' {
        lemma_first_colon_unique(s, 0);
    } else {
        let t = s.drop_first();
        let w = choose|p: int| 0 <= p < s.len() && s[p] == ':';
        assert(t[w - 1] == ':');
        lemma_first_colon_exists(t);
        let q = first_colon(t);
        assert forall|j: int| 0 <= j < q + 1 implies s[j] != ':' by {
            if j > 0 {
                assert(s[j] == t[j - 1]);
            }
        }
        lemma_first_colon_unique(s, q + 1);
    }
}

/// Finds the first colon of `s`.
pub fn find_colon(s: &str) -> (r: Option<usize>)
    ensures
        match r {
            Some(p) => is_first_colon(s@, p as int),
            None => !has_colon(s@),
        },
{
    let n = s.unicode_len();
    let mut i: usize = 0;
    while i < n
        invariant
            n == s@.len(),
            i <= n,
            forall|j: int| 0 <= j < i ==> s@[j] != ':',
        decreases n - i,
    {
        if s.get_char(i) == ':' {
            return Some(i);
        }
        i = i + 1;
    }
    None
}

} // verus!
