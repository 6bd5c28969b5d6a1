//! Small verified string utilities: content equality, whitespace
//! splitting, and trimming. Whitespace here is the ASCII set
//! (space, tab, line feed, carriage return).

use vstd::prelude::*;

verus! {

/// Relies on `String::push`: appends the given character to the end of
/// the string.
pub assume_specification[ String::push ](s: &mut String, c: char)
    ensures
        final(s)@ == old(s)@.push(c),
;

/// True when `c` is an ASCII whitespace character.
pub open spec fn spec_is_space(c: char) -> bool {
    c == ' ' || c == '\t' || c == '\n' || c == '\r'
}

/// Exec test for ASCII whitespace.
pub fn is_space(c: char) -> (r: bool)
    ensures
        r == spec_is_space(c),
{
    c == ' ' || c == '\t' || c == '\n' || c == '\r'
}

/// Content equality of two string slices.
pub fn str_eq(a: &str, b: &str) -> (r: bool)
    ensures
        r == (a@ == b@),
{
    let na = a.unicode_len();
    let nb = b.unicode_len();
    if na != nb {
        proof {
            assert(a@ != b@) by {
                if a@ == b@ {
                    assert(a@.len() == b@.len());
                }
            }
        }
        return false;
    }
    let mut i: usize = 0;
    while i < na
        invariant
            na == a@.len(),
            nb == b@.len(),
            na == nb,
            0 <= i <= na,
            forall|k: int| 0 <= k < i ==> a@[k] == b@[k],
        decreases na - i,
    {
        if a.get_char(i) != b.get_char(i) {
            return false;
        }
        i = i + 1;
    }
    proof {
        assert(a@ =~= b@);
    }
    true
}

/// Length of the leading run of non-whitespace characters.
pub open spec fn spec_word_len(s: Seq<char>) -> int
    decreases s.len(),
{
    if s.len() == 0 || spec_is_space(s[0]) {
        0
    } else {
        1 + spec_word_len(s.drop_first())
    }
}

pub proof fn lemma_word_len_bounds(s: Seq<char>)
    ensures
        0 <= spec_word_len(s) <= s.len(),
        forall|k: int| 0 <= k < spec_word_len(s) ==> !spec_is_space(#[trigger] s[k]),
        spec_word_len(s) < s.len() ==> spec_is_space(s[spec_word_len(s)]),
    decreases s.len(),
{
    if s.len() == 0 || spec_is_space(s[0]) {
    } else {
        lemma_word_len_bounds(s.drop_first());
        assert forall|k: int| 0 <= k < spec_word_len(s) implies !spec_is_space(#[trigger] s[k]) by {
            if k > 0 {
                assert(!spec_is_space(s.drop_first()[k - 1]));
            }
        }
    }
}

/// The length of the leading word is pinned by its characters: all
/// non-space before `l`, and a space (or the end) at `l`.
pub proof fn lemma_word_len_eq(s: Seq<char>, l: int)
    requires
        0 <= l <= s.len(),
        forall|k: int| 0 <= k < l ==> !spec_is_space(#[trigger] s[k]),
        l < s.len() ==> spec_is_space(s[l]),
    ensures
        spec_word_len(s) == l,
    decreases s.len(),
{
    if s.len() == 0 {
    } else if spec_is_space(s[0]) {
    } else {
        assert(l >= 1);
        lemma_word_len_eq(s.drop_first(), l - 1);
    }
}

/// The words of `s`: maximal runs of non-whitespace characters, in order.
pub open spec fn spec_split_ws(s: Seq<char>) -> Seq<Seq<char>>
    decreases s.len(),
    via spec_split_ws_dec
{
    if s.len() == 0 {
        Seq::empty()
    } else if spec_is_space(s[0]) {
        spec_split_ws(s.drop_first())
    } else {
        let l = spec_word_len(s);
        seq![s.subrange(0, l)] + spec_split_ws(s.subrange(l, s.len() as int))
    }
}

#[via_fn]
proof fn spec_split_ws_dec(s: Seq<char>) {
    lemma_word_len_bounds(s);
}

proof fn lemma_split_skip_space(s: Seq<char>, i: int)
    requires
        0 <= i < s.len(),
        spec_is_space(s[i]),
    ensures
        spec_split_ws(s.subrange(i, s.len() as int)) == spec_split_ws(
            s.subrange(i + 1, s.len() as int),
        ),
{
    let t = s.subrange(i, s.len() as int);
    assert(t.drop_first() =~= s.subrange(i + 1, s.len() as int));
}

proof fn lemma_split_take_word(s: Seq<char>, i: int, j: int)
    requires
        0 <= i < j <= s.len(),
        forall|k: int| i <= k < j ==> !spec_is_space(#[trigger] s[k]),
        j < s.len() ==> spec_is_space(s[j]),
    ensures
        spec_split_ws(s.subrange(i, s.len() as int)) == seq![s.subrange(i, j)] + spec_split_ws(
            s.subrange(j, s.len() as int),
        ),
{
    let t = s.subrange(i, s.len() as int);
    assert(forall|k: int| 0 <= k < j - i ==> !spec_is_space(#[trigger] t[k]));
    lemma_word_len_eq(t, j - i);
    assert(t.subrange(0, j - i) =~= s.subrange(i, j));
    assert(t.subrange(j - i, t.len() as int) =~= s.subrange(j, s.len() as int));
}

/// Splits a string into its whitespace-separated words.
pub fn split_ws(s: &str) -> (r: Vec<String>)
    ensures
        r@.map_values(|w: String| w@) == spec_split_ws(s@),
{
    let n = s.unicode_len();
    let mut words: Vec<String> = Vec::new();
    let mut i: usize = 0;
    proof {
        assert(s@.subrange(0, s@.len() as int) =~= s@);
    }
    while i < n
        invariant
            n == s@.len(),
            0 <= i <= n,
            spec_split_ws(s@) == words@.map_values(|w: String| w@) + spec_split_ws(
                s@.subrange(i as int, n as int),
            ),
        decreases n - i,
    {
        let c = s.get_char(i);
        if is_space(c) {
            proof {
                lemma_split_skip_space(s@, i as int);
            }
            i = i + 1;
        } else {
            let mut j: usize = i + 1;
            while j < n && !is_space(s.get_char(j))
                invariant
                    n == s@.len(),
                    0 <= i < j <= n,
                    forall|k: int| i <= k < j ==> !spec_is_space(#[trigger] s@[k]),
                decreases n - j,
            {
                j = j + 1;
            }
            let word = s.substring_char(i, j).to_owned();
            proof {
                lemma_split_take_word(s@, i as int, j as int);
            }
            let ghost old_words = words@;
            words.push(word);
            proof {
                assert(words@.map_values(|w: String| w@) =~= old_words.map_values(|w: String| w@)
                    + seq![s@.subrange(i as int, j as int)]);
            }
            i = j;
        }
    }
    proof {
        assert(s@.subrange(i as int, n as int) =~= Seq::<char>::empty());
        assert(spec_split_ws(s@) =~= words@.map_values(|w: String| w@));
    }
    words
}

/// Index of the first non-whitespace character (or the length).
pub open spec fn spec_trim_start_idx(s: Seq<char>) -> int
    decreases s.len(),
{
    if s.len() == 0 || !spec_is_space(s[0]) {
        0
    } else {
        1 + spec_trim_start_idx(s.drop_first())
    }
}

/// Index one past the last non-whitespace character (or zero).
pub open spec fn spec_trim_end_idx(s: Seq<char>) -> int
    decreases s.len(),
{
    if s.len() == 0 {
        0
    } else if !spec_is_space(s[s.len() - 1]) {
        s.len() as int
    } else {
        spec_trim_end_idx(s.drop_last())
    }
}

/// `s` with leading and trailing whitespace removed.
pub open spec fn spec_trim(s: Seq<char>) -> Seq<char> {
    if spec_trim_start_idx(s) >= spec_trim_end_idx(s) {
        Seq::empty()
    } else {
        s.subrange(spec_trim_start_idx(s), spec_trim_end_idx(s))
    }
}

proof fn lemma_trim_start_idx(s: Seq<char>)
    ensures
        0 <= spec_trim_start_idx(s) <= s.len(),
        forall|k: int| 0 <= k < spec_trim_start_idx(s) ==> spec_is_space(#[trigger] s[k]),
        spec_trim_start_idx(s) < s.len() ==> !spec_is_space(s[spec_trim_start_idx(s)]),
    decreases s.len(),
{
    if s.len() == 0 || !spec_is_space(s[0]) {
    } else {
        lemma_trim_start_idx(s.drop_first());
        assert forall|k: int| 0 <= k < spec_trim_start_idx(s) implies spec_is_space(
            #[trigger] s[k],
        ) by {
            if k > 0 {
                assert(spec_is_space(s.drop_first()[k - 1]));
            }
        }
    }
}

proof fn lemma_trim_start_idx_eq(s: Seq<char>, a: int)
    requires
        0 <= a <= s.len(),
        forall|k: int| 0 <= k < a ==> spec_is_space(#[trigger] s[k]),
        a < s.len() ==> !spec_is_space(s[a]),
    ensures
        spec_trim_start_idx(s) == a,
    decreases s.len(),
{
    if s.len() == 0 || !spec_is_space(s[0]) {
    } else {
        lemma_trim_start_idx_eq(s.drop_first(), a - 1);
    }
}

pub proof fn lemma_trim_end_idx_eq(s: Seq<char>, b: int)
    requires
        0 <= b <= s.len(),
        forall|k: int| b <= k < s.len() ==> spec_is_space(#[trigger] s[k]),
        b > 0 ==> !spec_is_space(s[b - 1]),
    ensures
        spec_trim_end_idx(s) == b,
    decreases s.len(),
{
    if s.len() == 0 {
    } else if !spec_is_space(s[s.len() - 1]) {
    } else {
        lemma_trim_end_idx_eq(s.drop_last(), b);
    }
}

/// Removes leading and trailing ASCII whitespace.
pub fn trim(s: &str) -> (r: String)
    ensures
        r@ == spec_trim(s@),
{
    let n = s.unicode_len();
    let mut a: usize = 0;
    while a < n && is_space(s.get_char(a))
        invariant
            n == s@.len(),
            0 <= a <= n,
            forall|k: int| 0 <= k < a ==> spec_is_space(#[trigger] s@[k]),
        decreases n - a,
    {
        a = a + 1;
    }
    proof {
        lemma_trim_start_idx_eq(s@, a as int);
    }
    let mut b: usize = n;
    while b > a && is_space(s.get_char(b - 1))
        invariant
            n == s@.len(),
            a <= b <= n,
            forall|k: int| b <= k < n ==> spec_is_space(#[trigger] s@[k]),
        decreases b,
    {
        b = b - 1;
    }
    if a >= b {
        proof {
            assert(a == b);
            assert(forall|k: int| 0 <= k < n ==> spec_is_space(#[trigger] s@[k]));
            lemma_trim_end_idx_eq(s@, 0);
        }
        String::new()
    } else {
        proof {
            lemma_trim_end_idx_eq(s@, b as int);
        }
        s.substring_char(a, b).to_owned()
    }
}

} // verus!
