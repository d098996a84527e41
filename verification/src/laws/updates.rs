//! Laws of updates: how the key of a release is read, and which installations
//! update themselves.
use crate::laws::editing::{files_have_extensions, free_of};
use crate::laws::text::{a_word_in_the_middle_is_found, lemma_shifted_index};
use crate::strings::{first_index, lemma_first_index, lemma_first_index_is, occurs_at, trimmed};
use crate::update::{key_from, kind_of, next_line, InstallKind};
use vstd::prelude::*;

verus! {

/// A line that carries no key: a blank one or a comment.
pub open spec fn is_aside(line: Seq<char>) -> bool {
    let t = trimmed(line);
    let mark = "untrusted comment:"@;
    t.len() == 0 || (t.len() >= mark.len() && t.take(mark.len() as int) == mark)
}

proof fn lemma_aside(line: Seq<char>)
    ensures
        is_aside(line) <==> !crate::update::carries_key(line),
{
    let t = trimmed(line);
    let mark = "untrusted comment:"@;
    if t.len() >= mark.len() {
        assert(t.subrange(0, mark.len() as int) =~= t.take(mark.len() as int));
    }
}

proof fn lemma_shifted_key(s: Seq<char>, at: int, k: int)
    requires
        0 <= at <= s.len(),
        0 <= k,
    ensures
        key_from(s, at + k) == key_from(s.skip(at), k),
    decreases s.len() + 1 - (at + k),
{
    let t = s.skip(at);
    if at + k < s.len() {
        lemma_shifted_index(s, "\n"@, at, k);
        lemma_first_index(t, "\n"@, k);
        let end = next_line(t, k);
        assert(next_line(s, at + k) == end + at);
        if k <= end <= t.len() {
            assert(s.subrange(at + k, at + end) =~= t.subrange(k, end));
            lemma_shifted_key(s, at, end + 1);
        }
    }
}

/// The key of a key file is its first line that is neither blank nor a comment,
/// without the white space around it; a file of such lines alone has none.
pub proof fn the_first_key_line_counts(line: Seq<char>, rest: Seq<char>)
    requires
        free_of(line, '\n'),
    ensures
        is_aside(line) ==> key_from(line + seq!['\n'] + rest, 0) == key_from(rest, 0),
        !is_aside(line) ==> key_from(line + seq!['\n'] + rest, 0) == trimmed(line),
        is_aside(line) ==> key_from(line, 0).len() == 0,
        !is_aside(line) ==> key_from(line, 0) == trimmed(line),
{
    lemma_aside(line);
    reveal_strlit("\n");
    assert("\n"@ =~= seq!['\n']);
    let s = line + seq!['\n'] + rest;
    let at = line.len() as int;
    assert(s.subrange(at, at + 1) =~= seq!['\n']);
    assert forall|j: int| 0 <= j < at implies !occurs_at(s, seq!['\n'], j) by {
        if occurs_at(s, seq!['\n'], j) {
            assert(s.subrange(j, j + 1)[0] == s[j]);
            assert(s[j] == line[j]);
        }
    }
    lemma_first_index_is(s, seq!['\n'], 0, at);
    assert(s.subrange(0, at) =~= line);
    assert(s.skip(at + 1) =~= rest);
    lemma_shifted_key(s, at + 1, 0);
    lemma_first_index(line, seq!['\n'], 0);
    if let Some(j) = first_index(line, seq!['\n'], 0) {
        assert(line.subrange(j, j + 1)[0] == line[j]);
    }
    assert(line.subrange(0, at) =~= line);
    assert(key_from(line, at + 1).len() == 0);
    if line.len() == 0 {
        assert(line =~= Seq::<char>::empty());
        lemma_blank_line(line);
    }
}

proof fn lemma_blank_line(line: Seq<char>)
    requires
        line.len() == 0,
    ensures
        trimmed(line).len() == 0,
{
}

/// A debug build counts as a development build everywhere. A release counts as
/// installed, but on macOS only where it runs from an application bundle: from the
/// place to which the system moves what was downloaded it cannot be replaced, and
/// without a bundle it is a development build.
pub proof fn installations_are_told_apart(
    dir: Seq<char>,
    stem: Seq<char>,
    a: Seq<char>,
    b: Seq<char>,
    root: Option<Seq<char>>,
)
    requires
        stem.len() > 0,
        free_of(stem, '/'),
    ensures
        kind_of(true, true, root) == InstallKind::DevBuild,
        kind_of(true, false, root) == InstallKind::DevBuild,
        kind_of(false, false, root) == InstallKind::Installed,
        kind_of(false, true, None) == InstallKind::DevBuild,
        kind_of(false, true, Some(a + "/AppTranslocation/"@ + b)) == InstallKind::Translocated,
        first_index(dir + seq!['/'] + (stem + ".app"@), "/AppTranslocation/"@, 0) is None
            ==> kind_of(false, true, Some(dir + seq!['/'] + (stem + ".app"@)))
            == InstallKind::Installed,
{
    reveal_strlit("/AppTranslocation/");
    a_word_in_the_middle_is_found(a, "/AppTranslocation/"@, b);
    reveal_strlit(".app");
    reveal_strlit("app");
    let ext = seq!['a', 'p', 'p'];
    assert("app"@ =~= ext);
    assert(stem + ".app"@ =~= stem + seq!['.'] + ext);
    files_have_extensions(dir, stem, ext);
}

} // verus!
