//! Laws of the text helpers, character by character.
use crate::strings::{
    ascii_lower, decimal, first_index, lemma_first_index, occurs_at, trim_back, trim_front,
    trimmed, white_space,
};
use vstd::prelude::*;

verus! {

/// A text of white space only.
pub open spec fn blank(s: Seq<char>) -> bool {
    forall|i: int| 0 <= i < s.len() ==> white_space(#[trigger] s[i])
}

/// A text without white space at its ends.
pub open spec fn tight(s: Seq<char>) -> bool {
    s.len() > 0 ==> !white_space(s[0]) && !white_space(s[s.len() - 1])
}

/// The white space of ASCII is the space and the controls from tab to carriage
/// return; beyond ASCII, the separators that Unicode lists.
pub proof fn white_space_is(c: char)
    ensures
        c < '\u{80}' ==> (white_space(c) <==> c == ' ' || ('\t' <= c && c <= '\r')),
        c >= '\u{80}' ==> (white_space(c) <==> c == '\u{85}' || c == '\u{a0}' || c == '\u{1680}'
            || ('\u{2000}' <= c && c <= '\u{200a}') || c == '\u{2028}' || c == '\u{2029}' || c
            == '\u{202f}' || c == '\u{205f}' || c == '\u{3000}'),
{
}

proof fn lemma_front(a: Seq<char>, s: Seq<char>)
    requires
        blank(a),
    ensures
        trim_front(a + s) == trim_front(s),
    decreases a.len(),
{
    if a.len() == 0 {
        assert(a + s =~= s);
    } else {
        assert((a + s)[0] == a[0]);
        assert(white_space(a[0]));
        assert((a + s).skip(1) =~= a.skip(1) + s);
        assert(blank(a.skip(1)));
        lemma_front(a.skip(1), s);
    }
}

proof fn lemma_back(s: Seq<char>, b: Seq<char>)
    requires
        blank(b),
    ensures
        trim_back(s + b) == trim_back(s),
    decreases b.len(),
{
    if b.len() == 0 {
        assert(s + b =~= s);
    } else {
        assert((s + b).last() == b[b.len() - 1]);
        assert(white_space(b[b.len() - 1]));
        assert((s + b).drop_last() =~= s + b.drop_last());
        assert(blank(b.drop_last()));
        lemma_back(s, b.drop_last());
    }
}

/// White space around a text is taken off, and nothing of the text itself.
pub proof fn trimming_takes_the_ends(a: Seq<char>, s: Seq<char>, b: Seq<char>)
    requires
        blank(a),
        tight(s),
        blank(b),
    ensures
        trimmed(a + s + b) == s,
{
    assert(a + s + b =~= a + (s + b));
    lemma_front(a, s + b);
    if s.len() == 0 {
        assert(s + b =~= b + s);
        lemma_front(b, s);
        assert(trim_front(s) == s);
        assert(trim_back(s) == s);
    } else {
        assert((s + b)[0] == s[0]);
        assert(trim_front(s + b) == s + b);
        lemma_back(s, b);
        assert(trim_back(s) == s);
    }
}

/// A text without white space at its ends stays as it is.
pub proof fn tight_text_is_kept(s: Seq<char>)
    requires
        tight(s),
    ensures
        trimmed(s) == s,
{
    let none = Seq::<char>::empty();
    trimming_takes_the_ends(none, s, none);
    assert(none + s + none =~= s);
}

proof fn lemma_front_is(s: Seq<char>) -> (a: Seq<char>)
    ensures
        blank(a),
        s == a + trim_front(s),
        trim_front(s).len() > 0 ==> !white_space(trim_front(s)[0]),
    decreases s.len(),
{
    if s.len() > 0 && white_space(s[0]) {
        let rest = lemma_front_is(s.skip(1));
        let a = seq![s[0]] + rest;
        assert(s =~= seq![s[0]] + s.skip(1));
        assert(seq![s[0]] + (rest + trim_front(s.skip(1))) =~= a + trim_front(s.skip(1)));
        assert forall|i: int| 0 <= i < a.len() implies white_space(#[trigger] a[i]) by {
            if i > 0 {
                assert(white_space(rest[i - 1]));
            }
        }
        a
    } else {
        assert(s =~= Seq::<char>::empty() + s);
        Seq::empty()
    }
}

proof fn lemma_back_is(s: Seq<char>) -> (b: Seq<char>)
    ensures
        blank(b),
        s == trim_back(s) + b,
        trim_back(s).len() > 0 ==> !white_space(trim_back(s).last()),
    decreases s.len(),
{
    if s.len() > 0 && white_space(s.last()) {
        let rest = lemma_back_is(s.drop_last());
        let b = rest.push(s.last());
        assert(s =~= s.drop_last().push(s.last()));
        assert((trim_back(s.drop_last()) + rest).push(s.last()) =~= trim_back(s.drop_last()) + b);
        assert forall|i: int| 0 <= i < b.len() implies white_space(#[trigger] b[i]) by {
            if i < rest.len() {
                assert(white_space(rest[i]));
            }
        }
        b
    } else {
        assert(s =~= s + Seq::<char>::empty());
        Seq::empty()
    }
}

/// Trimming takes off white space alone, and all of it: what it leaves stands in
/// the text between two stretches of white space.
pub proof fn trimming_leaves_the_middle(s: Seq<char>) -> (ends: (Seq<char>, Seq<char>))
    ensures
        blank(ends.0),
        blank(ends.1),
        s == ends.0 + trimmed(s) + ends.1,
        tight(trimmed(s)),
{
    let a = lemma_front_is(s);
    let rest = trim_front(s);
    let b = lemma_back_is(rest);
    assert(s =~= a + trimmed(s) + b);
    if trimmed(s).len() > 0 {
        assert(rest[0] == trimmed(s)[0]);
    }
    (a, b)
}

/// Lower-casing keeps the length and touches the letters from `A` to `Z` alone,
/// each of which becomes the letter at the same place from `a` to `z`.
pub proof fn only_ascii_letters_are_lowered(s: Seq<char>, i: int)
    requires
        0 <= i < s.len(),
    ensures
        ascii_lower(s).len() == s.len(),
        'A' <= s[i] && s[i] <= 'Z' ==> 'a' <= ascii_lower(s)[i] && ascii_lower(s)[i] <= 'z'
            && ascii_lower(s)[i] as int - 'a' as int == s[i] as int - 'A' as int,
        !('A' <= s[i] && s[i] <= 'Z') ==> ascii_lower(s)[i] == s[i],
{
}

/// A search finds the first place from `from` on at which the word stands, and
/// fails only where it stands nowhere.
pub proof fn a_search_finds_the_first_place(s: Seq<char>, word: Seq<char>, from: int)
    requires
        0 <= from <= s.len(),
    ensures
        match first_index(s, word, from) {
            Some(at) => from <= at && at + word.len() <= s.len() && s.subrange(
                at,
                at + word.len(),
            ) == word && forall|k: int|
                from <= k < at ==> #[trigger] s.subrange(k, k + word.len()) != word,
            None => forall|k: int|
                from <= k && k + word.len() <= s.len() ==> #[trigger] s.subrange(
                    k,
                    k + word.len(),
                ) != word,
        },
{
    lemma_first_index(s, word, from);
    if let Some(at) = first_index(s, word, from) {
        assert forall|k: int| from <= k < at implies #[trigger] s.subrange(k, k + word.len())
            != word by {
            assert(!occurs_at(s, word, k));
        }
    } else {
        assert forall|k: int| from <= k && k + word.len() <= s.len() implies #[trigger] s.subrange(
            k,
            k + word.len(),
        ) != word by {
            assert(!occurs_at(s, word, k));
        }
    }
}

/// What stands before an offset has no effect on a search from there.
pub proof fn lemma_shifted_index(s: Seq<char>, pat: Seq<char>, at: int, k: int)
    requires
        0 <= at <= s.len(),
        0 <= k,
    ensures
        first_index(s, pat, at + k) == match first_index(s.skip(at), pat, k) {
            Some(i) => Some(i + at),
            None => None,
        },
    decreases s.len() + 1 - (at + k),
{
    let t = s.skip(at);
    if at + k + pat.len() <= s.len() {
        assert(t.subrange(k, k + pat.len()) =~= s.subrange(at + k, at + k + pat.len()));
        if !occurs_at(s, pat, at + k) {
            lemma_shifted_index(s, pat, at, k + 1);
        }
    }
}

/// A word that stands between two texts is found.
pub proof fn a_word_in_the_middle_is_found(a: Seq<char>, word: Seq<char>, b: Seq<char>)
    requires
        word.len() > 0,
    ensures
        first_index(a + word + b, word, 0) is Some,
{
    let s = a + word + b;
    a_search_finds_the_first_place(s, word, 0);
    let at = a.len() as int;
    assert(s.subrange(at, at + word.len()) =~= word);
}

/// The number that a text of decimal digits is read as, the last digit counting
/// once and each one before it ten times the next.
pub open spec fn read_decimal(s: Seq<char>) -> int
    decreases s.len(),
{
    if s.len() == 0 {
        0
    } else {
        10 * read_decimal(s.drop_last()) + (s.last() as int - '0' as int)
    }
}

/// The decimal text of a number is digits without a leading zero, and reads as
/// that number.
pub proof fn decimal_texts_read_back(n: nat)
    ensures
        decimal(n).len() > 0,
        forall|i: int|
            0 <= i < decimal(n).len() ==> '0' <= #[trigger] decimal(n)[i] && decimal(n)[i] <= '9',
        decimal(n)[0] == '0' ==> n == 0 && decimal(n).len() == 1,
        read_decimal(decimal(n)) == n,
    decreases n,
{
    reveal_with_fuel(read_decimal, 2);
    if n >= 10 {
        decimal_texts_read_back(n / 10);
        assert(decimal(n).drop_last() =~= decimal(n / 10));
        assert(decimal(n)[0] == decimal(n / 10)[0]);
    } else {
        assert(decimal(n).drop_last() =~= Seq::<char>::empty());
    }
}

} // verus!
