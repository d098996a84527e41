//! A set of names, listed in ascending order.
use crate::strings::{chars_of, same_text, views};
use vstd::prelude::*;

verus! {

/// Whether `a` stands before `b` in the order of their characters.
pub open spec fn text_less(a: Seq<char>, b: Seq<char>) -> bool
    decreases a.len(),
{
    if b.len() == 0 {
        false
    } else if a.len() == 0 {
        true
    } else if a[0] != b[0] {
        a[0] < b[0]
    } else {
        text_less(a.skip(1), b.skip(1))
    }
}

/// Of two texts, one stands before the other, or they are the same.
pub proof fn text_order_is_total(a: Seq<char>, b: Seq<char>)
    ensures
        a == b <==> !text_less(a, b) && !text_less(b, a),
        !(text_less(a, b) && text_less(b, a)),
    decreases a.len(),
{
    if a.len() > 0 && b.len() > 0 && a[0] == b[0] {
        text_order_is_total(a.skip(1), b.skip(1));
        if a.skip(1) == b.skip(1) {
            assert(a =~= seq![a[0]] + a.skip(1));
            assert(b =~= seq![b[0]] + b.skip(1));
        }
    } else if a.len() == 0 && b.len() == 0 {
        assert(a =~= b);
    }
}

pub proof fn text_order_is_transitive(a: Seq<char>, b: Seq<char>, c: Seq<char>)
    requires
        text_less(a, b),
        text_less(b, c),
    ensures
        text_less(a, c),
    decreases a.len(),
{
    if a.len() > 0 && b.len() > 0 && c.len() > 0 && a[0] == b[0] && b[0] == c[0] {
        text_order_is_transitive(a.skip(1), b.skip(1), c.skip(1));
    }
}

/// Whether `a` stands before `b` in the order of their characters.
pub fn text_before(a: &str, b: &str) -> (r: bool)
    ensures
        r == text_less(a@, b@),
{
    let x = chars_of(a);
    let y = chars_of(b);
    let mut i: usize = 0;
    proof {
        assert(x@.skip(0) =~= x@);
        assert(y@.skip(0) =~= y@);
    }
    while i < x.len() && i < y.len()
        invariant
            x@ == a@,
            y@ == b@,
            i <= x@.len(),
            i <= y@.len(),
            text_less(x@, y@) == text_less(x@.skip(i as int), y@.skip(i as int)),
        decreases x@.len() - i,
    {
        proof {
            assert(x@.skip(i as int).skip(1) =~= x@.skip(i + 1));
            assert(y@.skip(i as int).skip(1) =~= y@.skip(i + 1));
        }
        if x[i] != y[i] {
            return x[i] < y[i];
        }
        i = i + 1;
    }
    i < y.len()
}

pub open spec fn ascending(s: Seq<Seq<char>>) -> bool {
    forall|i: int, j: int| 0 <= i < j < s.len() ==> text_less(#[trigger] s[i], #[trigger] s[j])
}

/// A set of names.
#[derive(Debug, PartialEq, Eq)]
pub struct NameSet {
    items: Vec<String>,
}

impl View for NameSet {
    type V = Set<Seq<char>>;

    closed spec fn view(&self) -> Set<Seq<char>> {
        views(self.items@).to_set()
    }
}

impl NameSet {
    #[verifier::type_invariant]
    spec fn sorted(&self) -> bool {
        ascending(views(self.items@))
    }

    pub fn new() -> (r: NameSet)
        ensures
            r@ == Set::<Seq<char>>::empty(),
    {
        let r = NameSet { items: Vec::new() };
        proof {
            assert(r@ =~= Set::<Seq<char>>::empty());
        }
        r
    }

    pub fn is_empty(&self) -> (r: bool)
        ensures
            r == (self@ =~= Set::<Seq<char>>::empty()),
    {
        proof {
            if self.items@.len() > 0 {
                assert(views(self.items@)[0] == self.items@[0]@);
                assert(self@.contains(self.items@[0]@));
            } else {
                assert(self@ =~= Set::<Seq<char>>::empty());
            }
        }
        self.items.len() == 0
    }

    pub fn contains(&self, name: &str) -> (r: bool)
        ensures
            r == self@.contains(name@),
    {
        let mut i: usize = 0;
        while i < self.items.len()
            invariant
                i <= self.items@.len(),
                forall|k: int| 0 <= k < i ==> self.items@[k]@ != name@,
            decreases self.items@.len() - i,
        {
            if same_text(self.items[i].as_str(), name) {
                proof {
                    assert(views(self.items@)[i as int] == name@);
                }
                return true;
            }
            i = i + 1;
        }
        proof {
            if self@.contains(name@) {
                let k = choose|k: int|
                    0 <= k < views(self.items@).len() && views(self.items@)[k] == name@;
                assert(self.items@[k]@ == name@);
            }
        }
        false
    }

    /// The names in ascending order, each once.
    pub fn into_vec(self) -> (r: Vec<String>)
        ensures
            ascending(views(r@)),
            views(r@).to_set() == self@,
    {
        proof {
            use_type_invariant(&self);
        }
        self.items
    }
}

impl NameSet {
    /// Adds `name`.
    pub fn insert(&mut self, name: &str)
        ensures
            final(self)@ == old(self)@.insert(name@),
    {
        proof {
            use_type_invariant(&*self);
        }
        let ghost before = views(self.items@);
        let mut items: Vec<String> = Vec::new();
        std::mem::swap(&mut items, &mut self.items);
        let mut k: usize = 0;
        while k < items.len() && text_before(items[k].as_str(), name)
            invariant
                k <= items@.len(),
                views(items@) == before,
                forall|j: int| 0 <= j < k ==> text_less(#[trigger] before[j], name@),
            decreases items@.len() - k,
        {
            proof {
                assert(before[k as int] == items@[k as int]@);
            }
            k = k + 1;
        }
        if k < items.len() && same_text(items[k].as_str(), name) {
            proof {
                assert(before[k as int] == items@[k as int]@);
                assert(before.to_set().contains(name@));
                assert(before.to_set().insert(name@) =~= before.to_set());
            }
            self.items = items;
            return;
        }
        proof {
            if k < items@.len() {
                assert(before[k as int] == items@[k as int]@);
                text_order_is_total(before[k as int], name@);
            }
        }
        items.insert(k, name.to_owned());
        proof {
            let after = views(items@);
            assert(after =~= before.insert(k as int, name@));
            assert(ascending(after)) by {
                assert forall|i: int, j: int| 0 <= i < j < after.len() implies text_less(
                    #[trigger] after[i],
                    #[trigger] after[j],
                ) by {
                    if j < k {
                        assert(text_less(before[i], before[j]));
                    } else if j == k {
                        assert(text_less(before[i], name@));
                    } else if i == k {
                        if j - 1 > k {
                            assert(text_less(before[k as int], before[j - 1]));
                            text_order_is_transitive(name@, before[k as int], before[j - 1]);
                        }
                    } else if i < k {
                        assert(text_less(before[i], before[j - 1]));
                    } else {
                        assert(text_less(before[i - 1], before[j - 1]));
                    }
                }
            }
            assert(after.to_set() =~= before.to_set().insert(name@)) by {
                assert forall|x: Seq<char>| after.to_set().contains(x) <==> before.to_set().insert(
                    name@,
                ).contains(x) by {
                    if after.to_set().contains(x) {
                        let i = choose|i: int| 0 <= i < after.len() && after[i] == x;
                        if i < k {
                            assert(before[i] == x);
                        } else if i > k {
                            assert(before[i - 1] == x);
                        }
                    }
                    if before.to_set().contains(x) {
                        let i = choose|i: int| 0 <= i < before.len() && before[i] == x;
                        if i < k {
                            assert(after[i] == x);
                        } else {
                            assert(after[i + 1] == x);
                        }
                    }
                    assert(after[k as int] == name@);
                }
            }
        }
        self.items = items;
    }
}

} // verus!
