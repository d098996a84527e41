//! Groups of saved requests. A group is nothing but the name that its members
//! carry: it appears with its first member and vanishes with its last.
use crate::model::{SavedRequest, SavedView};
use crate::names::{text_before, text_less, text_order_is_total, text_order_is_transitive};
use crate::strings::{same_text, trim, trimmed, views};
use vstd::prelude::*;

verus! {

/// Which saved requests are listed.
#[derive(Debug, PartialEq, Eq)]
pub enum SavedFilter {
    All,
    /// Those without a group.
    Uncategorized,
    Group(String),
}

pub enum FilterView {
    All,
    Uncategorized,
    Group(Seq<char>),
}

impl View for SavedFilter {
    type V = FilterView;

    open spec fn view(&self) -> FilterView {
        match *self {
            SavedFilter::All => FilterView::All,
            SavedFilter::Uncategorized => FilterView::Uncategorized,
            SavedFilter::Group(name) => FilterView::Group(name@),
        }
    }
}

impl Default for SavedFilter {
    fn default() -> (r: SavedFilter)
        ensures
            r@ == FilterView::All,
    {
        SavedFilter::All
    }
}

/// A group name as it is stored; a blank name means no group.
pub fn normalize_group(name: &str) -> (r: Option<String>)
    ensures
        match r {
            Some(n) => n@ == trimmed(name@) && n@.len() > 0,
            None => trimmed(name@).len() == 0,
        },
{
    let text = trim(name);
    if text.as_str().unicode_len() == 0 {
        None
    } else {
        Some(text)
    }
}

/// Whether a request passes a filter.
pub open spec fn passes(filter: FilterView, r: SavedView) -> bool {
    match filter {
        FilterView::All => true,
        FilterView::Uncategorized => r.group is None,
        FilterView::Group(name) => r.group == Some(name),
    }
}

/// The indices of the requests that pass a filter.
pub open spec fn kept(filter: FilterView, saved: Seq<SavedView>) -> Seq<usize>
    decreases saved.len(),
{
    if saved.len() == 0 {
        Seq::empty()
    } else {
        let head = kept(filter, saved.drop_last());
        if passes(filter, saved.last()) {
            head.push((saved.len() - 1) as usize)
        } else {
            head
        }
    }
}

fn passes_filter(filter: &SavedFilter, r: &SavedRequest) -> (b: bool)
    ensures
        b == passes(filter@, r@),
{
    match filter {
        SavedFilter::All => true,
        SavedFilter::Uncategorized => r.group.is_none(),
        SavedFilter::Group(name) => match &r.group {
            Some(g) => same_text(g.as_str(), name.as_str()),
            None => false,
        },
    }
}

/// The indices of the requests that pass a filter, in ascending order.
pub fn filter_indices(filter: &SavedFilter, saved: &[SavedRequest]) -> (r: Vec<usize>)
    ensures
        r@ == kept(filter@, views(saved@)),
{
    let ghost all = views(saved@);
    let mut out: Vec<usize> = Vec::new();
    let mut i: usize = 0;
    proof {
        assert(all.take(0) =~= Seq::<SavedView>::empty());
    }
    while i < saved.len()
        invariant
            i <= saved@.len(),
            all == views(saved@),
            out@ == kept(filter@, all.take(i as int)),
        decreases saved@.len() - i,
    {
        proof {
            assert(all.take(i + 1).drop_last() =~= all.take(i as int));
            assert(all.take(i + 1).last() == saved@[i as int]@);
        }
        if passes_filter(filter, &saved[i]) {
            out.push(i);
        }
        i = i + 1;
    }
    proof {
        assert(all.take(i as int) =~= all);
    }
    out
}

/// Whether a filter is still of use: any but [`SavedFilter::All`] needs a request
/// that passes it.
pub fn filter_still_valid(filter: &SavedFilter, saved: &[SavedRequest]) -> (r: bool)
    ensures
        r == (filter@ is All || kept(filter@, views(saved@)).len() > 0),
{
    match filter {
        SavedFilter::All => true,
        _ => filter_indices(filter, saved).len() > 0,
    }
}

/// How many requests have no group.
pub fn uncategorized_count(saved: &[SavedRequest]) -> (r: usize)
    ensures
        r == kept(FilterView::Uncategorized, views(saved@)).len(),
{
    filter_indices(&SavedFilter::Uncategorized, saved).len()
}

/// Exactly the requests that pass a filter are listed, in their order.
pub proof fn listed_requests_pass(filter: FilterView, saved: Seq<SavedView>)
    requires
        saved.len() <= usize::MAX,
    ensures
        forall|k: int|
            0 <= k < kept(filter, saved).len() ==> (#[trigger] kept(filter, saved)[k])
                < saved.len() && passes(filter, saved[kept(filter, saved)[k] as int]),
        forall|i: int|
            0 <= i < saved.len() && passes(filter, #[trigger] saved[i]) ==> kept(
                filter,
                saved,
            ).contains(i as usize),
        forall|j: int, k: int|
            0 <= j < k < kept(filter, saved).len() ==> #[trigger] kept(filter, saved)[j]
                < #[trigger] kept(filter, saved)[k],
    decreases saved.len(),
{
    if saved.len() > 0 {
        let front = saved.drop_last();
        listed_requests_pass(filter, front);
        let head = kept(filter, front);
        let all = kept(filter, saved);
        assert forall|k: int| 0 <= k < all.len() implies (#[trigger] all[k]) < saved.len()
            && passes(filter, saved[all[k] as int]) by {
            if k < head.len() {
                assert(all[k] == head[k]);
                assert(front[head[k] as int] == saved[head[k] as int]);
            }
        }
        assert forall|i: int|
            0 <= i < saved.len() && passes(filter, #[trigger] saved[i]) implies all.contains(
            i as usize,
        ) by {
            if i < front.len() {
                assert(front[i] == saved[i]);
                let k = choose|k: int| 0 <= k < head.len() && head[k] == i as usize;
                assert(all[k] == head[k]);
            } else {
                assert(all[head.len() as int] == i as usize);
            }
        }
        assert forall|j: int, k: int| 0 <= j < k < all.len() implies #[trigger] all[j]
            < #[trigger] all[k] by {
            assert(all[j] == head[j]);
            if k < head.len() {
                assert(all[k] == head[k]);
            }
        }
    }
}

/// How many requests a group has.
pub open spec fn member_count(saved: Seq<SavedView>, name: Seq<char>) -> nat {
    kept(FilterView::Group(name), saved).len()
}

/// The text that `str::to_lowercase` makes of a text.
pub uninterp spec fn unicode_lower(s: Seq<char>) -> Seq<char>;

/// `str::to_lowercase`: the text in lower case, by the Unicode tables. Which
/// character becomes which is not stated.
#[verifier::external_body]
fn lowercase(s: &str) -> (r: String)
    ensures
        r@ == unicode_lower(s@),
{
    s.to_lowercase()
}

/// A group with its members counted, and the key by which it is listed.
#[derive(Debug, PartialEq, Eq)]
pub struct KeyedGroup {
    pub key: String,
    pub name: String,
    pub count: usize,
}

pub struct KeyedView {
    pub key: Seq<char>,
    pub name: Seq<char>,
    pub count: nat,
}

impl View for KeyedGroup {
    type V = KeyedView;

    open spec fn view(&self) -> KeyedView {
        KeyedView { key: self.key@, name: self.name@, count: self.count as nat }
    }
}

/// The order of groups: by key, and by name where the keys are the same.
pub open spec fn keyed_before(a: KeyedView, b: KeyedView) -> bool {
    text_less(a.key, b.key) || (a.key == b.key && text_less(a.name, b.name))
}

pub open spec fn in_order(s: Seq<KeyedView>) -> bool {
    forall|i: int, j: int| 0 <= i < j < s.len() ==> keyed_before(#[trigger] s[i], #[trigger] s[j])
}

pub open spec fn names_distinct(s: Seq<KeyedView>) -> bool {
    forall|i: int, j: int|
        0 <= i < j < s.len() ==> (#[trigger] s[i]).name != (#[trigger] s[j]).name
}

pub open spec fn has_name(s: Seq<KeyedView>, name: Seq<char>) -> bool {
    exists|i: int| 0 <= i < s.len() && (#[trigger] s[i]).name == name
}

/// One member more.
pub open spec fn counted(g: KeyedView) -> KeyedView {
    KeyedView { count: g.count + 1, ..g }
}

/// Counts one member of the group `name`, which is listed by `key`.
pub fn add_member(groups: &mut Vec<KeyedGroup>, key: String, name: &str)
    requires
        in_order(views(old(groups)@)),
        names_distinct(views(old(groups)@)),
        forall|i: int| 0 <= i < old(groups)@.len() ==> (#[trigger] old(groups)@[i]).count < usize::MAX,
    ensures
        in_order(views(final(groups)@)),
        names_distinct(views(final(groups)@)),
        has_name(views(old(groups)@), name@) ==> exists|i: int|
            0 <= i < old(groups)@.len() && (#[trigger] views(old(groups)@)[i]).name == name@
                && views(final(groups)@) == views(old(groups)@).update(
                i,
                counted(views(old(groups)@)[i]),
            ),
        !has_name(views(old(groups)@), name@) ==> exists|i: int|
            0 <= i <= old(groups)@.len() && views(final(groups)@) == #[trigger] views(
                old(groups)@,
            ).insert(i, KeyedView { key: key@, name: name@, count: 1 }),
{
    let ghost before = views(groups@);
    let n = groups.len();
    let mut i: usize = 0;
    while i < n
        invariant
            n == groups@.len(),
            i <= n,
            before == views(groups@),
            groups@ == old(groups)@,
            before == views(old(groups)@),
            in_order(before),
            names_distinct(before),
            forall|k: int| 0 <= k < n ==> (#[trigger] groups@[k]).count < usize::MAX,
            forall|k: int| 0 <= k < i ==> (#[trigger] before[k]).name != name@,
        decreases n - i,
    {
        if same_text(groups[i].name.as_str(), name) {
            let g = KeyedGroup {
                key: groups[i].key.clone(),
                name: groups[i].name.clone(),
                count: groups[i].count + 1,
            };
            proof {
                assert(before[i as int] == groups@[i as int]@);
            }
            groups.set(i, g);
            proof {
                let after = views(groups@);
                assert(after =~= before.update(i as int, counted(before[i as int])));
                assert(before[i as int].name == name@);
                assert forall|a: int, b: int| 0 <= a < b < after.len() implies keyed_before(
                    #[trigger] after[a],
                    #[trigger] after[b],
                ) by {
                    assert(keyed_before(before[a], before[b]));
                }
                assert forall|a: int, b: int| 0 <= a < b < after.len() implies (
                #[trigger] after[a]).name != (#[trigger] after[b]).name by {
                    assert(before[a].name != before[b].name);
                }
            }
            return;
        }
        proof {
            assert(before[i as int] == groups@[i as int]@);
        }
        i = i + 1;
    }
    let ghost fresh = KeyedView { key: key@, name: name@, count: 1 };
    let at = position_of(groups, key.as_str(), name);
    groups.insert(at, KeyedGroup { key, name: name.to_owned(), count: 1 });
    proof {
        let after = views(groups@);
        assert(after =~= before.insert(at as int, fresh));
        lemma_insert_in_order(before, fresh, at as int);
        assert forall|a: int, b: int| 0 <= a < b < after.len() implies (#[trigger] after[a]).name
            != (#[trigger] after[b]).name by {
            if a < at && b > at {
                assert(before[a].name != before[b - 1].name);
            } else if b < at {
                assert(before[a].name != before[b].name);
            } else if a > at {
                assert(before[a - 1].name != before[b - 1].name);
            } else if a == at {
                assert(before[b - 1].name != name@);
            } else {
                assert(before[a].name != name@);
            }
        }
    }
}

/// Where a new group stands: behind all groups that stand before it.
fn position_of(groups: &Vec<KeyedGroup>, key: &str, name: &str) -> (r: usize)
    ensures
        r <= groups@.len(),
        forall|k: int|
            0 <= k < r ==> keyed_before(
                #[trigger] views(groups@)[k],
                KeyedView { key: key@, name: name@, count: 1 },
            ),
        r < groups@.len() ==> !keyed_before(
            views(groups@)[r as int],
            KeyedView { key: key@, name: name@, count: 1 },
        ),
{
    let ghost fresh = KeyedView { key: key@, name: name@, count: 1 };
    let mut k: usize = 0;
    while k < groups.len()
        invariant
            k <= groups@.len(),
            fresh == (KeyedView { key: key@, name: name@, count: 1 }),
            forall|j: int| 0 <= j < k ==> keyed_before(#[trigger] views(groups@)[j], fresh),
        decreases groups@.len() - k,
    {
        let g = &groups[k];
        proof {
            assert(views(groups@)[k as int] == g@);
        }
        if !(text_before(g.key.as_str(), key) || (same_text(g.key.as_str(), key) && text_before(
            g.name.as_str(),
            name,
        ))) {
            return k;
        }
        k = k + 1;
    }
    k
}

proof fn lemma_keyed_total(a: KeyedView, b: KeyedView)
    requires
        a.name != b.name,
        !keyed_before(a, b),
    ensures
        keyed_before(b, a),
{
    text_order_is_total(a.key, b.key);
    text_order_is_total(a.name, b.name);
}

proof fn lemma_keyed_transitive(a: KeyedView, b: KeyedView, c: KeyedView)
    requires
        keyed_before(a, b),
        keyed_before(b, c),
    ensures
        keyed_before(a, c),
{
    if text_less(a.key, b.key) && text_less(b.key, c.key) {
        text_order_is_transitive(a.key, b.key, c.key);
    } else if a.key == b.key && b.key == c.key {
        text_order_is_transitive(a.name, b.name, c.name);
    }
}

proof fn lemma_insert_in_order(s: Seq<KeyedView>, g: KeyedView, at: int)
    requires
        in_order(s),
        0 <= at <= s.len(),
        forall|k: int| 0 <= k < s.len() ==> (#[trigger] s[k]).name != g.name,
        forall|k: int| 0 <= k < at ==> keyed_before(#[trigger] s[k], g),
        at < s.len() ==> !keyed_before(s[at], g),
    ensures
        in_order(s.insert(at, g)),
{
    let after = s.insert(at, g);
    if at < s.len() {
        lemma_keyed_total(s[at], g);
    }
    assert forall|i: int, j: int| 0 <= i < j < after.len() implies keyed_before(
        #[trigger] after[i],
        #[trigger] after[j],
    ) by {
        if j < at {
            assert(keyed_before(s[i], s[j]));
        } else if j == at {
            assert(keyed_before(s[i], g));
        } else if i == at {
            if j - 1 > at {
                assert(keyed_before(s[at], s[j - 1]));
                lemma_keyed_transitive(g, s[at], s[j - 1]);
            }
        } else if i < at {
            assert(keyed_before(s[i], s[j - 1]));
        } else {
            assert(keyed_before(s[i - 1], s[j - 1]));
        }
    }
}

/// The members of all groups together.
pub open spec fn total_members(s: Seq<KeyedView>) -> nat
    decreases s.len(),
{
    if s.len() == 0 {
        0
    } else {
        total_members(s.drop_last()) + s.last().count
    }
}

proof fn lemma_total_update(s: Seq<KeyedView>, i: int)
    requires
        0 <= i < s.len(),
    ensures
        total_members(s.update(i, counted(s[i]))) == total_members(s) + 1,
    decreases s.len(),
{
    let t = s.update(i, counted(s[i]));
    if i == s.len() - 1 {
        assert(t.drop_last() =~= s.drop_last());
    } else {
        lemma_total_update(s.drop_last(), i);
        assert(t.drop_last() =~= s.drop_last().update(i, counted(s.drop_last()[i])));
    }
}

proof fn lemma_total_insert(s: Seq<KeyedView>, i: int, g: KeyedView)
    requires
        0 <= i <= s.len(),
        g.count == 1,
    ensures
        total_members(s.insert(i, g)) == total_members(s) + 1,
    decreases s.len(),
{
    let t = s.insert(i, g);
    if i == s.len() {
        assert(t.drop_last() =~= s);
    } else {
        lemma_total_insert(s.drop_last(), i, g);
        assert(t.drop_last() =~= s.drop_last().insert(i, g));
    }
}

/// Whether `s` lists exactly the groups of `saved`, each with its members
/// counted, in the order of their names without regard to case.
pub open spec fn lists_groups(s: Seq<KeyedView>, saved: Seq<SavedView>) -> bool {
    &&& in_order(s)
    &&& names_distinct(s)
    &&& forall|i: int|
        0 <= i < s.len() ==> (#[trigger] s[i]).key == unicode_lower(s[i].name) && s[i].count
            == member_count(saved, s[i].name) && s[i].count > 0
    &&& forall|name: Seq<char>| #[trigger]
        member_count(saved, name) > 0 ==> has_name(s, name)
}

/// One request more, of the group `name`.
proof fn lemma_member(front: Seq<SavedView>, r: SavedView)
    ensures
        forall|name: Seq<char>| #[trigger]
            member_count(front.push(r), name) == member_count(front, name) + if r.group == Some(
                name,
            ) {
                1nat
            } else {
                0nat
            },
        kept(FilterView::Uncategorized, front.push(r)).len() == kept(
            FilterView::Uncategorized,
            front,
        ).len() + if r.group is None {
            1nat
        } else {
            0nat
        },
{
    assert(front.push(r).drop_last() =~= front);
}

/// Counting one member keeps the list of groups.
proof fn lemma_step(
    before: Seq<KeyedView>,
    after: Seq<KeyedView>,
    front: Seq<SavedView>,
    r: SavedView,
    name: Seq<char>,
)
    requires
        lists_groups(before, front),
        r.group == Some(name),
        in_order(after),
        names_distinct(after),
        has_name(before, name) ==> exists|i: int|
            0 <= i < before.len() && (#[trigger] before[i]).name == name && after
                == before.update(i, counted(before[i])),
        !has_name(before, name) ==> exists|i: int|
            0 <= i <= before.len() && after == #[trigger] before.insert(
                i,
                KeyedView { key: unicode_lower(name), name, count: 1 },
            ),
    ensures
        lists_groups(after, front.push(r)),
        total_members(after) == total_members(before) + 1,
{
    lemma_member(front, r);
    let all = front.push(r);
    if has_name(before, name) {
        let i = choose|i: int|
            0 <= i < before.len() && (#[trigger] before[i]).name == name && after
                == before.update(i, counted(before[i]));
        lemma_total_update(before, i);
        assert forall|k: int| 0 <= k < after.len() implies (#[trigger] after[k]).key
            == unicode_lower(after[k].name) && after[k].count == member_count(all, after[k].name)
            && after[k].count > 0 by {
            assert(before[k].key == unicode_lower(before[k].name));
            if k != i {
                assert(before[k].name != before[i].name);
            }
        }
        assert forall|m: Seq<char>| #[trigger] member_count(all, m) > 0 implies has_name(
            after,
            m,
        ) by {
            if m == name {
                assert(after[i].name == m);
            } else {
                assert(has_name(before, m));
                let k = choose|k: int| 0 <= k < before.len() && (#[trigger] before[k]).name == m;
                assert(after[k].name == m);
            }
        }
    } else {
        let g = KeyedView { key: unicode_lower(name), name, count: 1 };
        let i = choose|i: int| 0 <= i <= before.len() && after == #[trigger] before.insert(i, g);
        lemma_total_insert(before, i, g);
        assert(member_count(front, name) == 0);
        assert forall|k: int| 0 <= k < after.len() implies (#[trigger] after[k]).key
            == unicode_lower(after[k].name) && after[k].count == member_count(all, after[k].name)
            && after[k].count > 0 by {
            if k < i {
                assert(after[k] == before[k]);
                assert(before[k].name != name);
            } else if k > i {
                assert(after[k] == before[k - 1]);
                assert(before[k - 1].name != name);
            } else {
                assert(after[k] == g);
            }
        }
        assert forall|m: Seq<char>| #[trigger] member_count(all, m) > 0 implies has_name(
            after,
            m,
        ) by {
            if m == name {
                assert(after[i].name == m);
            } else {
                assert(has_name(before, m));
                let k = choose|k: int| 0 <= k < before.len() && (#[trigger] before[k]).name == m;
                if k < i {
                    assert(after[k].name == m);
                } else {
                    assert(after[k + 1].name == m);
                }
            }
        }
    }
}

/// A request without a group keeps the list of groups.
proof fn lemma_skip(s: Seq<KeyedView>, front: Seq<SavedView>, r: SavedView)
    requires
        lists_groups(s, front),
        r.group is None,
    ensures
        lists_groups(s, front.push(r)),
{
    lemma_member(front, r);
    let all = front.push(r);
    assert forall|m: Seq<char>| #[trigger] member_count(all, m) > 0 implies has_name(s, m) by {
        assert(member_count(front, m) > 0);
    }
}

/// The view of a list of names and counts.
pub open spec fn tally_view(s: Seq<(String, usize)>) -> Seq<(Seq<char>, nat)> {
    s.map_values(|p: (String, usize)| (p.0@, p.1 as nat))
}

pub open spec fn without_keys(s: Seq<KeyedView>) -> Seq<(Seq<char>, nat)> {
    s.map_values(|g: KeyedView| (g.name, g.count))
}

/// The groups of the saved requests with their numbers of members, in the order
/// of their names without regard to case. Names that differ in case only are two
/// groups, next to each other.
pub fn derive_groups(saved: &[SavedRequest]) -> (r: Vec<(String, usize)>)
    ensures
        exists|s: Seq<KeyedView>| #[trigger]
            lists_groups(s, views(saved@)) && tally_view(r@) == without_keys(s) && total_members(s)
                + kept(FilterView::Uncategorized, views(saved@)).len() == saved@.len(),
{
    let ghost all = views(saved@);
    let mut groups: Vec<KeyedGroup> = Vec::new();
    let mut i: usize = 0;
    proof {
        assert(all.take(0) =~= Seq::<SavedView>::empty());
        assert(views(groups@) =~= Seq::<KeyedView>::empty());
    }
    while i < saved.len()
        invariant
            i <= saved@.len(),
            all == views(saved@),
            lists_groups(views(groups@), all.take(i as int)),
            total_members(views(groups@)) + kept(
                FilterView::Uncategorized,
                all.take(i as int),
            ).len() == i,
        decreases saved@.len() - i,
    {
        let ghost before = views(groups@);
        let ghost front = all.take(i as int);
        let n = saved.len();
        proof {
            assert(all.take(i + 1) =~= front.push(all[i as int]));
            assert(all[i as int] == saved@[i as int]@);
            lemma_member(front, all[i as int]);
            assert forall|k: int| 0 <= k < groups@.len() implies (#[trigger] groups@[k]).count
                < usize::MAX by {
                assert(before[k] == groups@[k]@);
                lemma_count_bound(front, before[k].name);
            }
        }
        match &saved[i].group {
            Some(name) => {
                let key = lowercase(name.as_str());
                add_member(&mut groups, key, name.as_str());
                proof {
                    lemma_step(before, views(groups@), front, all[i as int], name@);
                }
            },
            None => {
                proof {
                    lemma_skip(before, front, all[i as int]);
                }
            },
        }
        i = i + 1;
    }
    proof {
        assert(all.take(i as int) =~= all);
    }
    strip_keys(groups)
}

proof fn lemma_count_bound(saved: Seq<SavedView>, name: Seq<char>)
    ensures
        member_count(saved, name) <= saved.len(),
    decreases saved.len(),
{
    if saved.len() > 0 {
        lemma_count_bound(saved.drop_last(), name);
    }
}

fn strip_keys(groups: Vec<KeyedGroup>) -> (r: Vec<(String, usize)>)
    ensures
        tally_view(r@) == without_keys(views(groups@)),
{
    let mut out: Vec<(String, usize)> = Vec::new();
    let mut i: usize = 0;
    while i < groups.len()
        invariant
            i <= groups@.len(),
            out@.len() == i,
            forall|k: int|
                0 <= k < i ==> (#[trigger] out@[k]).0@ == groups@[k].name@ && out@[k].1
                    == groups@[k].count,
        decreases groups@.len() - i,
    {
        out.push((groups[i].name.clone(), groups[i].count));
        i = i + 1;
    }
    proof {
        assert(tally_view(out@) =~= without_keys(views(groups@)));
    }
    out
}

/// The groups of the same requests are listed in one way only.
pub proof fn groups_are_listed_in_one_way(
    a: Seq<KeyedView>,
    b: Seq<KeyedView>,
    saved: Seq<SavedView>,
)
    requires
        lists_groups(a, saved),
        lists_groups(b, saved),
    ensures
        a == b,
    decreases a.len(),
{
    lemma_same_order(a, b, saved, 0);
    lemma_same_order(b, a, saved, 0);
    assert(a.len() == b.len()) by {
        lemma_length(a, b, saved);
        lemma_length(b, a, saved);
    }
    assert(a =~= b);
}

/// A group of the one list stands in the other.
proof fn lemma_in_both(a: Seq<KeyedView>, b: Seq<KeyedView>, saved: Seq<SavedView>, i: int) -> (j:
    int)
    requires
        lists_groups(a, saved),
        lists_groups(b, saved),
        0 <= i < a.len(),
    ensures
        0 <= j < b.len(),
        b[j] == a[i],
{
    let name = a[i].name;
    assert(member_count(saved, name) > 0);
    assert(has_name(b, name));
    let j = choose|j: int| 0 <= j < b.len() && (#[trigger] b[j]).name == name;
    assert(b[j].key == unicode_lower(name));
    j
}

/// The `i`-th group of the one list stands at `i` in the other, as far as both
/// reach.
proof fn lemma_same_order(a: Seq<KeyedView>, b: Seq<KeyedView>, saved: Seq<SavedView>, i: int)
    requires
        lists_groups(a, saved),
        lists_groups(b, saved),
        0 <= i,
        forall|k: int| 0 <= k < i && k < a.len() && k < b.len() ==> #[trigger] a[k] == b[k],
    ensures
        forall|k: int| 0 <= k < a.len() && k < b.len() ==> #[trigger] a[k] == b[k],
    decreases a.len() - i,
{
    if i < a.len() && i < b.len() {
        let j = lemma_in_both(a, b, saved, i);
        let l = lemma_in_both(b, a, saved, i);
        if j < i {
            assert(a[j] == b[j]);
            assert(a[j].name != a[i].name);
        }
        if l < i {
            assert(a[l] == b[l]);
            assert(b[l].name != b[i].name);
        }
        if j > i && l > i {
            assert(keyed_before(b[i], b[j]));
            assert(keyed_before(a[i], a[l]));
            text_order_is_total(a[i].key, b[i].key);
            text_order_is_total(a[i].name, b[i].name);
        }
        assert(a[i] == b[i]);
        lemma_same_order(a, b, saved, i + 1);
    }
}

proof fn lemma_length(a: Seq<KeyedView>, b: Seq<KeyedView>, saved: Seq<SavedView>)
    requires
        lists_groups(a, saved),
        lists_groups(b, saved),
        forall|k: int| 0 <= k < a.len() && k < b.len() ==> #[trigger] a[k] == b[k],
    ensures
        a.len() <= b.len(),
{
    if a.len() > b.len() {
        let i = b.len() as int;
        let j = lemma_in_both(a, b, saved, i);
        assert(a[j] == b[j]);
        assert(a[j].name != a[i].name);
    }
}

} // verus!
