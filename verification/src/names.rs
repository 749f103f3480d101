//! Tables that keep the order of first insertion.
use crate::text::same;
use vstd::prelude::*;

verus! {

/// Where `name` stands in `s`: its first place, or `s.len()` where it does not occur.
pub open spec fn position<K, V>(s: Seq<(K, V)>, name: K) -> nat
    decreases s.len(),
{
    if s.len() == 0 {
        0
    } else if position(s.drop_last(), name) < s.len() - 1 {
        position(s.drop_last(), name)
    } else if s.last().0 == name {
        (s.len() - 1) as nat
    } else {
        s.len()
    }
}

/// The value that `name` is bound to.
pub open spec fn lookup<K, V>(s: Seq<(K, V)>, name: K) -> Option<V> {
    if position(s, name) < s.len() {
        Some(s[position(s, name) as int].1)
    } else {
        None
    }
}

/// `s` with `name` bound to `v`: in its old place where it was bound, else at the end.
pub open spec fn bind<K, V>(s: Seq<(K, V)>, name: K, v: V) -> Seq<(K, V)> {
    if position(s, name) < s.len() {
        s.update(position(s, name) as int, (name, v))
    } else {
        s.push((name, v))
    }
}

/// No name occurs twice.
pub open spec fn distinct<K, V>(s: Seq<(K, V)>) -> bool {
    forall|i: int, j: int| 0 <= i < j < s.len() ==> (#[trigger] s[i]).0 != (#[trigger] s[j]).0
}

/// `position` is the first place of `name`.
pub proof fn lemma_position<K, V>(s: Seq<(K, V)>, name: K)
    ensures
        position(s, name) <= s.len(),
        position(s, name) < s.len() ==> s[position(s, name) as int].0 == name,
        forall|i: int| 0 <= i < position(s, name) ==> (#[trigger] s[i]).0 != name,
    decreases s.len(),
{
    if s.len() > 0 {
        lemma_position(s.drop_last(), name);
        let p = position(s, name);
        assert forall|i: int| 0 <= i < p implies (#[trigger] s[i]).0 != name by {
            if i < s.len() - 1 {
                assert(s[i] == s.drop_last()[i]);
            }
        }
    }
}

/// The first place of a name is the only value that fits the description.
pub proof fn lemma_position_is<K, V>(s: Seq<(K, V)>, name: K, p: nat)
    requires
        p <= s.len(),
        p < s.len() ==> s[p as int].0 == name,
        forall|i: int| 0 <= i < p ==> (#[trigger] s[i]).0 != name,
    ensures
        position(s, name) == p,
{
    lemma_position(s, name);
    let q = position(s, name);
    if p < q {
        assert(s[p as int].0 != name);
    } else if q < p {
        assert(s[q as int].0 != name);
    }
}

/// Binding keeps the names distinct.
pub proof fn lemma_bind_distinct<K, V>(s: Seq<(K, V)>, name: K, v: V)
    requires
        distinct(s),
    ensures
        distinct(bind(s, name, v)),
{
    lemma_position(s, name);
    let t = bind(s, name, v);
    assert forall|i: int, j: int| 0 <= i < j < t.len() implies (#[trigger] t[i]).0 != (
    #[trigger] t[j]).0 by {
        if position(s, name) < s.len() {
            assert(t[i].0 == s[i].0 && t[j].0 == s[j].0);
        } else if j < s.len() {
            assert(t[i] == s[i] && t[j] == s[j]);
        } else {
            assert(t[i] == s[i]);
        }
    }
}

/// A bound name is found with its latest value, and binding it changes no other name.
pub proof fn law_bind_lookup<K, V>(s: Seq<(K, V)>, name: K, v: V, other: K)
    ensures
        lookup(bind(s, name, v), name) == Some(v),
        other != name ==> lookup(bind(s, name, v), other) == lookup(s, other),
{
    lemma_position(s, name);
    lemma_position(s, other);
    let t = bind(s, name, v);
    let p = position(s, name);
    assert forall|i: int| 0 <= i < p implies (#[trigger] t[i]).0 != name by {
        assert(t[i] == s[i]);
    }
    lemma_position_is(t, name, p);
    if other != name {
        let q = position(s, other);
        if p < s.len() {
            assert forall|i: int| 0 <= i < q implies (#[trigger] t[i]).0 != other by {
                assert(i == p || t[i] == s[i]);
            }
            lemma_position_is(t, other, q);
        } else if q < s.len() {
            assert forall|i: int| 0 <= i < q implies (#[trigger] t[i]).0 != other by {
                assert(t[i] == s[i]);
            }
            lemma_position_is(t, other, q);
        } else {
            assert forall|i: int| 0 <= i < t.len() implies (#[trigger] t[i]).0 != other by {
                assert(i == s.len() || t[i] == s[i]);
            }
            lemma_position_is(t, other, t.len());
        }
    }
}

/// `s` without the binding of `name`.
pub open spec fn unbind<K, V>(s: Seq<(K, V)>, name: K) -> Seq<(K, V)> {
    if position(s, name) < s.len() {
        s.remove(position(s, name) as int)
    } else {
        s
    }
}

/// An unbound name is not found, and unbinding it changes no other name.
pub proof fn law_unbind_lookup<K, V>(s: Seq<(K, V)>, name: K, other: K)
    requires
        distinct(s),
    ensures
        distinct(unbind(s, name)),
        lookup(unbind(s, name), name) is None,
        other != name ==> lookup(unbind(s, name), other) == lookup(s, other),
{
    lemma_position(s, name);
    lemma_position(s, other);
    let p = position(s, name) as int;
    let q = position(s, other) as int;
    let t = unbind(s, name);
    if p < s.len() {
        assert forall|i: int| 0 <= i < t.len() implies #[trigger] t[i] == (if i < p {
            s[i]
        } else {
            s[i + 1]
        }) by {}
        assert forall|i: int, j: int| 0 <= i < j < t.len() implies (#[trigger] t[i]).0 != (
        #[trigger] t[j]).0 by {
            let a = if i < p {
                i
            } else {
                i + 1
            };
            let b = if j < p {
                j
            } else {
                j + 1
            };
            assert(t[i] == s[a] && t[j] == s[b]);
        }
        assert forall|i: int| 0 <= i < t.len() implies (#[trigger] t[i]).0 != name by {
            let a = if i < p {
                i
            } else {
                i + 1
            };
            assert(t[i] == s[a] && s[p].0 == name);
        }
        lemma_position_is(t, name, t.len());
        if other != name {
            let r = if q < p {
                q
            } else {
                q - 1
            };
            assert forall|i: int| 0 <= i < r implies (#[trigger] t[i]).0 != other by {
                let a = if i < p {
                    i
                } else {
                    i + 1
                };
                assert(t[i] == s[a]);
            }
            if r < t.len() {
                assert(t[r] == s[q]);
            }
            lemma_position_is(t, other, r as nat);
        }
    } else {
        lemma_position_is(s, name, s.len());
    }
}

/// A table from names to values. No name occurs twice; names keep the order in
/// which they first came.
#[derive(Debug)]
pub struct NameMap<T: View> {
    entries: Vec<(String, T)>,
}

impl<T: View> View for NameMap<T> {
    type V = Seq<(Seq<char>, T::V)>;

    closed spec fn view(&self) -> Seq<(Seq<char>, T::V)> {
        entry_views(self.entries@)
    }
}

/// The views of names and values.
pub open spec fn entry_views<T: View>(s: Seq<(String, T)>) -> Seq<(Seq<char>, T::V)> {
    s.map_values(|e: (String, T)| (e.0@, e.1@))
}

impl<T: View> NameMap<T> {
    #[verifier::type_invariant]
    closed spec fn inv(&self) -> bool {
        distinct(self@)
    }

    /// The empty table.
    pub fn new() -> (r: Self)
        ensures
            r@.len() == 0,
    {
        NameMap { entries: Vec::new() }
    }

    /// Number of names.
    pub fn len(&self) -> (r: usize)
        ensures
            r == self@.len(),
    {
        self.entries.len()
    }

    /// The name that came `i`-th.
    pub fn name_at(&self, i: usize) -> (r: &str)
        requires
            i < self@.len(),
        ensures
            r@ == self@[i as int].0,
    {
        self.entries[i].0.as_str()
    }

    /// The value of the name that came `i`-th.
    pub fn value_at(&self, i: usize) -> (r: &T)
        requires
            i < self@.len(),
        ensures
            r@ == self@[i as int].1,
    {
        &self.entries[i].1
    }

    /// The place of `name`, or the number of names where it is not there.
    fn find(&self, name: &str) -> (r: usize)
        ensures
            r == position(self@, name@),
    {
        let mut i: usize = 0;
        while i < self.entries.len()
            invariant
                i <= self.entries@.len(),
                forall|k: int| 0 <= k < i ==> (#[trigger] self@[k]).0 != name@,
            decreases self.entries@.len() - i,
        {
            if same(self.entries[i].0.as_str(), name) {
                assert(self@[i as int].0 == name@);
                proof {
                    lemma_position_is(self@, name@, i as nat);
                }
                return i;
            }
            assert(self@[i as int].0 != name@);
            i = i + 1;
        }
        proof {
            lemma_position_is(self@, name@, i as nat);
        }
        i
    }

    /// The value that `name` is bound to.
    pub fn get(&self, name: &str) -> (r: Option<&T>)
        ensures
            match r {
                Some(v) => lookup(self@, name@) == Some(v@),
                None => lookup(self@, name@) is None,
            },
    {
        let i: usize = self.find(name);
        if i < self.entries.len() {
            Some(&self.entries[i].1)
        } else {
            None
        }
    }

    /// Whether `name` is bound.
    pub fn contains(&self, name: &str) -> (r: bool)
        ensures
            r == (lookup(self@, name@) is Some),
    {
        self.find(name) < self.entries.len()
    }

    /// Binds `name` to `value`, in place of what it was bound to.
    pub fn insert(&mut self, name: String, value: T)
        ensures
            final(self)@ == bind(old(self)@, name@, value@),
    {
        let i: usize = self.find(name.as_str());
        let ghost before = self@;
        let ghost (n, v) = (name@, value@);
        proof {
            use_type_invariant(&*self);
            lemma_bind_distinct(before, n, v);
        }
        let mut entries: Vec<(String, T)> = Vec::new();
        std::mem::swap(&mut self.entries, &mut entries);
        if i < entries.len() {
            entries.set(i, (name, value));
        } else {
            entries.push((name, value));
        }
        assert(entry_views(entries@) =~= bind(before, n, v));
        self.entries = entries;
    }
}

} // verus!
