//! A subset of JSON paths: `a.b[0].c`, `a["k.v"]`, `a['k']`, with an optional
//! leading `$`. There are no wildcards, filters or recursive descent.
use crate::json::{
    compact_text, element, json_view, member, plain_text, string_of_value, JsonView,
};
use crate::strings::{
    chars_of, find_chars, first_index, lemma_first_index, string_of, trim, trimmed,
};
use vstd::prelude::*;

verus! {

/// One step of a path: into an object, or into an array.
pub enum Step {
    Key(String),
    Index(usize),
}

pub enum StepView {
    Key(Seq<char>),
    Index(nat),
}

impl View for Step {
    type V = StepView;

    open spec fn view(&self) -> StepView {
        match *self {
            Step::Key(k) => StepView::Key(k@),
            Step::Index(i) => StepView::Index(i as nat),
        }
    }
}

pub open spec fn is_digit(c: char) -> bool {
    '0' <= c && c <= '9'
}

/// The number that decimal digits stand for.
pub open spec fn number_of(digits: Seq<char>) -> nat
    decreases digits.len(),
{
    if digits.len() == 0 {
        0
    } else {
        number_of(digits.drop_last()) * 10 + (digits.last() as nat - '0' as nat) as nat
    }
}

/// The index that a text stands for: decimal digits, with an optional `+`, that
/// fit into a machine word.
pub open spec fn index_of(text: Seq<char>) -> Option<nat> {
    let digits = without_plus(text);
    if digits.len() > 0 && all_digits(digits) && number_of(digits) <= usize::MAX {
        Some(number_of(digits))
    } else {
        None
    }
}

/// A text without a leading `+`.
pub open spec fn without_plus(text: Seq<char>) -> Seq<char> {
    if text.len() > 0 && text[0] == '+' {
        text.skip(1)
    } else {
        text
    }
}

pub open spec fn all_digits(s: Seq<char>) -> bool {
    forall|i: int| 0 <= i < s.len() ==> is_digit(#[trigger] s[i])
}

/// The offset from `at` on at which a plain name ends.
pub open spec fn name_end(s: Seq<char>, at: int) -> int
    decreases s.len() - at,
{
    if at < 0 || at >= s.len() || s[at] == '.' || s[at] == '[' {
        at
    } else {
        name_end(s, at + 1)
    }
}

/// Puts a step in front of the steps that follow.
pub open spec fn cons(step: StepView, rest: Option<Seq<StepView>>) -> Option<Seq<StepView>> {
    match rest {
        Some(steps) => Some(seq![step] + steps),
        None => None,
    }
}

pub proof fn lemma_name_end(s: Seq<char>, at: int)
    requires
        0 <= at <= s.len(),
    ensures
        at <= name_end(s, at) <= s.len(),
        at < s.len() && s[at] != '.' && s[at] != '[' ==> at < name_end(s, at),
    decreases s.len() - at,
{
    if at < s.len() && s[at] != '.' && s[at] != '[' {
        lemma_name_end(s, at + 1);
    }
}

/// The steps that the path `s` describes from offset `at` on; `None` for a
/// malformed path. A dot must be followed by something other than a dot, a quoted
/// key must close right before `]`, an unquoted bracket must hold an index.
pub open spec fn steps_from(s: Seq<char>, at: int) -> Option<Seq<StepView>>
    decreases s.len() - at,
{
    if at < 0 || at > s.len() {
        None
    } else if at < s.len() && s[at] == '.' && (at + 1 == s.len() || s[at + 1] == '.') {
        None
    } else {
        let p = if at < s.len() && s[at] == '.' { at + 1 } else { at };
        if p == s.len() {
            Some(Seq::empty())
        } else if s[p] == '[' {
            if p + 1 < s.len() && (s[p + 1] == '"' || s[p + 1] == '\'') {
                proof {
                    lemma_first_index(s, seq![s[p + 1]], p + 2);
                }
                match first_index(s, seq![s[p + 1]], p + 2) {
                    None => None,
                    Some(close) => if close + 1 < s.len() && s[close + 1] == ']' {
                        cons(StepView::Key(s.subrange(p + 2, close)), steps_from(s, close + 2))
                    } else {
                        None
                    },
                }
            } else {
                proof {
                    lemma_first_index(s, seq![']'], p + 1);
                }
                match first_index(s, seq![']'], p + 1) {
                    None => None,
                    Some(end) => match index_of(trimmed(s.subrange(p + 1, end))) {
                        Some(i) => cons(StepView::Index(i), steps_from(s, end + 1)),
                        None => None,
                    },
                }
            }
        } else {
            proof {
                lemma_name_end(s, p);
            }
            let end = name_end(s, p);
            if end <= p {
                None
            } else {
                cons(StepView::Key(s.subrange(p, end)), steps_from(s, end))
            }
        }
    }
}

/// The steps that a path describes.
pub open spec fn path_steps(path: Seq<char>) -> Option<Seq<StepView>> {
    let s = trimmed(path);
    steps_from(s, if s.len() > 0 && s[0] == '$' { 1 } else { 0 })
}

/// One step into a value.
pub open spec fn step_into(v: JsonView, step: StepView) -> Option<JsonView> {
    match step {
        StepView::Key(k) => match v {
            JsonView::Object(m) => if m.contains_key(k) {
                Some(m[k])
            } else {
                None
            },
            _ => None,
        },
        StepView::Index(i) => match v {
            JsonView::Array(items) => if i < items.len() {
                Some(items[i as int])
            } else {
                None
            },
            _ => None,
        },
    }
}

/// The value that steps lead to.
pub open spec fn walk(v: JsonView, steps: Seq<StepView>) -> Option<JsonView>
    decreases steps.len(),
{
    if steps.len() == 0 {
        Some(v)
    } else {
        match step_into(v, steps[0]) {
            Some(next) => walk(next, steps.skip(1)),
            None => None,
        }
    }
}

/// The value at a path.
pub open spec fn value_at(root: JsonView, path: Seq<char>) -> Option<JsonView> {
    match path_steps(path) {
        Some(steps) => walk(root, steps),
        None => None,
    }
}

/// A path through two parts leads through the value at the first.
pub proof fn walks_compose(v: JsonView, a: Seq<StepView>, b: Seq<StepView>)
    ensures
        walk(v, a + b) == match walk(v, a) {
            Some(next) => walk(next, b),
            None => None,
        },
    decreases a.len(),
{
    if a.len() == 0 {
        assert(a + b =~= b);
    } else {
        assert((a + b)[0] == a[0]);
        assert((a + b).skip(1) =~= a.skip(1) + b);
        if let Some(next) = step_into(v, a[0]) {
            walks_compose(next, a.skip(1), b);
        }
    }
}

proof fn lemma_number_grows(digits: Seq<char>, k: int)
    requires
        0 <= k <= digits.len(),
        all_digits(digits),
    ensures
        number_of(digits.take(k)) <= number_of(digits),
    decreases digits.len(),
{
    if k == digits.len() {
        assert(digits.take(k) =~= digits);
    } else {
        assert(digits.drop_last().take(k) =~= digits.take(k));
        lemma_number_grows(digits.drop_last(), k);
        assert(is_digit(digits[digits.len() - 1]));
    }
}

fn parse_index(text: &str) -> (r: Option<usize>)
    ensures
        match r {
            Some(i) => index_of(text@) == Some(i as nat),
            None => index_of(text@) is None,
        },
{
    let chars = chars_of(text);
    let from: usize = if chars.len() > 0 && chars[0] == '+' {
        1
    } else {
        0
    };
    let ghost digits = without_plus(text@);
    proof {
        assert(digits =~= chars@.skip(from as int));
        assert(digits.take(0) =~= Seq::<char>::empty());
    }
    if from == chars.len() {
        return None;
    }
    let mut n: usize = 0;
    let mut i: usize = from;
    while i < chars.len()
        invariant
            chars@ == text@,
            from <= i <= chars@.len(),
            digits == chars@.skip(from as int),
            digits == without_plus(text@),
            forall|k: int| 0 <= k < i - from ==> is_digit(#[trigger] digits[k]),
            n == number_of(digits.take(i - from)),
        decreases chars@.len() - i,
    {
        let c = chars[i];
        proof {
            assert(digits[i - from] == c);
        }
        if c < '0' || c > '9' {
            proof {
                assert(!is_digit(digits[i - from]));
            }
            return None;
        }
        let d: usize = (c as u32 - 48) as usize;
        let ghost k = i - from;
        proof {
            assert(digits.take(k + 1).drop_last() =~= digits.take(k));
            assert(number_of(digits.take(k + 1)) == n * 10 + d);
        }
        if n > (usize::MAX - d) / 10 {
            proof {
                assert(n * 10 + d > usize::MAX);
                if all_digits(digits) {
                    lemma_number_grows(digits, k + 1);
                }
            }
            return None;
        }
        n = n * 10 + d;
        i = i + 1;
    }
    proof {
        assert(digits.take(i - from) =~= digits);
    }
    Some(n)
}

/// The view of parsed steps.
pub open spec fn steps_view(r: Option<Vec<Step>>) -> Option<Seq<StepView>> {
    match r {
        Some(steps) => Some(crate::strings::views(steps@)),
        None => None,
    }
}

/// Reads a path.
pub fn parse_path(path: &str) -> (r: Option<Vec<Step>>)
    ensures
        steps_view(r) == path_steps(path@),
{
    let text = trim(path);
    let s = chars_of(text.as_str());
    let n = s.len();
    let start: usize = if n > 0 && s[0] == '$' {
        1
    } else {
        0
    };
    let mut steps: Vec<Step> = Vec::new();
    let mut at: usize = start;
    proof {
        assert(crate::strings::views(steps@) =~= Seq::<StepView>::empty());
        if let Some(rest) = steps_from(s@, at as int) {
            assert(Seq::<StepView>::empty() + rest =~= rest);
        }
    }
    loop
        invariant
            n == s@.len(),
            at <= n,
            path_steps(path@) == prepend(
                crate::strings::views(steps@),
                steps_from(s@, at as int),
            ),
        decreases n - at,
    {
        let ghost before = crate::strings::views(steps@);
        let mut p: usize = at;
        if at < n && s[at] == '.' {
            if at + 1 == n || s[at + 1] == '.' {
                return None;
            }
            p = at + 1;
        }
        if p == n {
            proof {
                assert(before + Seq::<StepView>::empty() =~= before);
            }
            return Some(steps);
        }
        let next: usize;
        let step: Step;
        if s[p] == '[' {
            if p + 1 < n && (s[p + 1] == '"' || s[p + 1] == '\'') {
                let quote = [s[p + 1]];
                proof {
                    assert(quote@ =~= seq![s@[p + 1]]);
                }
                match find_chars(s.as_slice(), quote.as_slice(), p + 2) {
                    None => return None,
                    Some(close) => {
                        if close + 1 >= n || s[close + 1] != ']' {
                            return None;
                        }
                        step = Step::Key(string_of(s.as_slice(), p + 2, close));
                        next = close + 2;
                    },
                }
            } else {
                let bracket = [']'];
                proof {
                    assert(bracket@ =~= seq![']']);
                }
                match find_chars(s.as_slice(), bracket.as_slice(), p + 1) {
                    None => return None,
                    Some(end) => {
                        let raw = string_of(s.as_slice(), p + 1, end);
                        let inner = trim(raw.as_str());
                        match parse_index(inner.as_str()) {
                            None => return None,
                            Some(i) => {
                                step = Step::Index(i);
                                next = end + 1;
                            },
                        }
                    },
                }
            }
        } else {
            let end = find_name_end(&s, p);
            proof {
                lemma_name_end(s@, p as int);
            }
            step = Step::Key(string_of(s.as_slice(), p, end));
            next = end;
        }
        let ghost view = step@;
        proof {
            assert(steps_from(s@, at as int) == cons(view, steps_from(s@, next as int)));
            if let Some(rest) = steps_from(s@, next as int) {
                assert(before + (seq![view] + rest) =~= before.push(view) + rest);
            }
        }
        steps.push(step);
        proof {
            assert(crate::strings::views(steps@) =~= before.push(view));
        }
        at = next;
    }
}

/// `head` followed by the steps of `rest`, where there are any.
pub open spec fn prepend(head: Seq<StepView>, rest: Option<Seq<StepView>>) -> Option<
    Seq<StepView>,
> {
    match rest {
        Some(steps) => Some(head + steps),
        None => None,
    }
}

fn find_name_end(s: &Vec<char>, at: usize) -> (r: usize)
    requires
        at <= s@.len(),
    ensures
        r == name_end(s@, at as int),
        at <= r <= s@.len(),
{
    let mut i: usize = at;
    while i < s.len() && s[i] != '.' && s[i] != '['
        invariant
            at <= i <= s@.len(),
            name_end(s@, at as int) == name_end(s@, i as int),
        decreases s@.len() - i,
    {
        i = i + 1;
    }
    i
}

/// The value at `path` in `root`.
pub fn get<'a>(root: &'a serde_json::Value, path: &str) -> (r: Option<&'a serde_json::Value>)
    ensures
        match r {
            Some(v) => value_at(json_view(*root), path@) == Some(json_view(*v)),
            None => value_at(json_view(*root), path@) is None,
        },
{
    let steps = match parse_path(path) {
        Some(steps) => steps,
        None => return None,
    };
    let ghost all = crate::strings::views(steps@);
    let mut cur = root;
    let mut i: usize = 0;
    proof {
        assert(all.skip(0) =~= all);
    }
    while i < steps.len()
        invariant
            all == crate::strings::views(steps@),
            path_steps(path@) == Some(all),
            i <= steps@.len(),
            walk(json_view(*root), all) == walk(json_view(*cur), all.skip(i as int)),
        decreases steps@.len() - i,
    {
        proof {
            assert(all.skip(i as int)[0] == steps@[i as int]@);
            assert(all.skip(i as int).skip(1) =~= all.skip(i + 1));
        }
        let next = match &steps[i] {
            Step::Key(k) => member(cur, k.as_str()),
            Step::Index(n) => element(cur, *n),
        };
        match next {
            Some(v) => {
                cur = v;
            },
            None => return None,
        }
        i = i + 1;
    }
    Some(cur)
}

/// A string as it is, anything else as compact JSON.
pub fn value_to_string(v: &serde_json::Value) -> (r: String)
    ensures
        r@ == plain_text(json_view(*v)),
{
    match string_of_value(v) {
        Some(s) => s.to_owned(),
        None => compact_text(v),
    }
}

} // verus!
