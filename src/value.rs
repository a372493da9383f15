//! The wire-level attribute value model and attribute maps.
use vstd::prelude::*;
use crate::text::str_eq;

verus! {

broadcast use vstd::std_specs::vec::group_vec_axioms;

/// Mathematical view of an [`AttributeValue`]: one variant per wire tag.
pub enum AttrView {
    S(Seq<char>),
    N(Seq<char>),
    B(Seq<u8>),
    Bool(bool),
    Null,
    SS(Seq<Seq<char>>),
    NS(Seq<Seq<char>>),
    BS(Seq<Seq<u8>>),
    L(Seq<AttrView>),
    M(Seq<(Seq<char>, AttrView)>),
}

/// A typed attribute value as the store exchanges it. Numbers travel as
/// decimal text.
#[derive(Debug, PartialEq)]
pub enum AttributeValue {
    S(String),
    N(String),
    B(Vec<u8>),
    Bool(bool),
    Null,
    SS(Vec<String>),
    NS(Vec<String>),
    BS(Vec<Vec<u8>>),
    L(Vec<AttributeValue>),
    M(Attributes),
}

/// A map from attribute names to values. Entries keep the order in which
/// their keys were first inserted; a key is looked up at its first entry.
/// The entries are a vector rather than a hash map so that every operation,
/// and the order in which a map's values are decoded, has an exact contract.
#[derive(Debug, PartialEq)]
pub struct Attributes {
    pub entries: Vec<(String, AttributeValue)>,
}

impl AttributeValue {
    pub open spec fn view(&self) -> AttrView
        decreases self,
    {
        match self {
            AttributeValue::S(s) => AttrView::S(s@),
            AttributeValue::N(s) => AttrView::N(s@),
            AttributeValue::B(b) => AttrView::B(b@),
            AttributeValue::Bool(b) => AttrView::Bool(*b),
            AttributeValue::Null => AttrView::Null,
            AttributeValue::SS(v) => AttrView::SS(strings_view(v@)),
            AttributeValue::NS(v) => AttrView::NS(strings_view(v@)),
            AttributeValue::BS(v) => AttrView::BS(blobs_view(v@)),
            AttributeValue::L(v) => AttrView::L(
                Seq::new(
                    v.len() as nat,
                    |i: int|
                        if 0 <= i < v.len() {
                            v[i].view()
                        } else {
                            AttrView::Null
                        },
                ),
            ),
            AttributeValue::M(a) => AttrView::M(
                Seq::new(
                    a.entries.len() as nat,
                    |i: int|
                        if 0 <= i < a.entries.len() {
                            (a.entries[i].0@, a.entries[i].1.view())
                        } else {
                            (Seq::empty(), AttrView::Null)
                        },
                ),
            ),
        }
    }
}

pub open spec fn strings_view(v: Seq<String>) -> Seq<Seq<char>> {
    v.map_values(|s: String| s@)
}

pub open spec fn blobs_view(v: Seq<Vec<u8>>) -> Seq<Seq<u8>> {
    v.map_values(|b: Vec<u8>| b@)
}

/// Position of the first entry with key `k`, or -1.
pub open spec fn index_of<V>(s: Seq<(Seq<char>, V)>, k: Seq<char>) -> int
    decreases s.len(),
{
    if s.len() == 0 {
        -1
    } else {
        let j = index_of(s.drop_last(), k);
        if j >= 0 {
            j
        } else if s.last().0 == k {
            s.len() - 1
        } else {
            -1
        }
    }
}

pub open spec fn has_key<V>(s: Seq<(Seq<char>, V)>, k: Seq<char>) -> bool {
    index_of(s, k) >= 0
}

pub open spec fn lookup<V>(s: Seq<(Seq<char>, V)>, k: Seq<char>) -> Option<V> {
    let i = index_of(s, k);
    if i >= 0 {
        Some(s[i].1)
    } else {
        None
    }
}

/// Sets `k` to `v`: in place where `k` has an entry, else at the end.
pub open spec fn entries_insert<V>(s: Seq<(Seq<char>, V)>, k: Seq<char>, v: V) -> Seq<(Seq<char>, V)> {
    let i = index_of(s, k);
    if i >= 0 {
        s.update(i, (k, v))
    } else {
        s.push((k, v))
    }
}

/// Takes out the entry of `k`, if any.
pub open spec fn entries_remove<V>(s: Seq<(Seq<char>, V)>, k: Seq<char>) -> Seq<(Seq<char>, V)> {
    let i = index_of(s, k);
    if i >= 0 {
        s.remove(i)
    } else {
        s
    }
}

/// No two entries share a key.
pub open spec fn keys_unique<V>(s: Seq<(Seq<char>, V)>) -> bool {
    forall|i: int, j: int| 0 <= i < s.len() && 0 <= j < s.len() && i != j ==> s[i].0 != s[j].0
}

pub proof fn lemma_index_of<V>(s: Seq<(Seq<char>, V)>, k: Seq<char>)
    ensures
        -1 <= index_of(s, k) < s.len(),
        index_of(s, k) >= 0 ==> s[index_of(s, k)].0 == k,
        index_of(s, k) >= 0 ==> forall|j: int| 0 <= j < index_of(s, k) ==> s[j].0 != k,
        index_of(s, k) == -1 <==> forall|j: int| 0 <= j < s.len() ==> s[j].0 != k,
    decreases s.len(),
{
    if s.len() > 0 {
        let t = s.drop_last();
        lemma_index_of(t, k);
        assert(forall|j: int| 0 <= j < t.len() ==> t[j] == s[j]);
    }
}

impl Attributes {
    pub open spec fn view(&self) -> Seq<(Seq<char>, AttrView)> {
        Seq::new(self.entries.len() as nat, |i: int| (self.entries[i].0@, self.entries[i].1.view()))
    }

    /// An empty map.
    pub fn new() -> (r: Attributes)
        ensures
            r@ == Seq::<(Seq<char>, AttrView)>::empty(),
    {
        let r = Attributes { entries: Vec::new() };
        assert(r@ =~= Seq::<(Seq<char>, AttrView)>::empty());
        r
    }

    /// Number of entries.
    pub fn len(&self) -> (r: usize)
        ensures
            r == self@.len(),
    {
        self.entries.len()
    }

    fn position(&self, key: &str) -> (r: Option<usize>)
        ensures
            match r {
                Some(i) => i < self.entries.len() && index_of(self@, key@) == i as int,
                None => index_of(self@, key@) == -1,
            },
    {
        let mut i: usize = 0;
        while i < self.entries.len()
            invariant
                i <= self.entries.len(),
                index_of(self@.subrange(0, i as int), key@) == -1,
            decreases self.entries.len() - i,
        {
            let ghost pre = self@.subrange(0, i as int);
            assert(self@.subrange(0, i + 1).drop_last() =~= pre);
            if str_eq(self.entries[i].0.as_str(), key) {
                proof {
                    lemma_index_prefix(self@, key@, i as int);
                }
                return Some(i);
            }
            i = i + 1;
        }
        assert(self@.subrange(0, i as int) =~= self@);
        None
    }

    /// Whether `key` has an entry.
    pub fn contains_key(&self, key: &str) -> (r: bool)
        ensures
            r == has_key(self@, key@),
    {
        self.position(key).is_some()
    }

    /// The value of `key`, if any.
    pub fn get(&self, key: &str) -> (r: Option<&AttributeValue>)
        ensures
            match r {
                Some(v) => lookup(self@, key@) == Some(v@),
                None => lookup(self@, key@) is None,
            },
    {
        match self.position(key) {
            Some(i) => Some(&self.entries[i].1),
            None => None,
        }
    }

    /// Sets `key` to `value`, replacing an earlier value of it.
    pub fn insert(&mut self, key: String, value: AttributeValue)
        ensures
            final(self)@ == entries_insert(old(self)@, key@, value@),
    {
        match self.position(key.as_str()) {
            Some(i) => {
                let _ = self.entries.remove(i);
                self.entries.insert(i, (key, value));
                assert(final(self)@ =~= entries_insert(old(self)@, key@, value@));
            },
            None => {
                self.entries.push((key, value));
                assert(final(self)@ =~= entries_insert(old(self)@, key@, value@));
            },
        }
    }

    /// Takes out the entry of `key` and returns its value.
    pub fn remove(&mut self, key: &str) -> (r: Option<AttributeValue>)
        ensures
            final(self)@ == entries_remove(old(self)@, key@),
            match r {
                Some(v) => lookup(old(self)@, key@) == Some(v@),
                None => lookup(old(self)@, key@) is None,
            },
    {
        match self.position(key) {
            Some(i) => {
                let (_, v) = self.entries.remove(i);
                assert(final(self)@ =~= entries_remove(old(self)@, key@));
                Some(v)
            },
            None => None,
        }
    }
}

/// Copies a list of strings.
pub fn copy_strings(v: &Vec<String>) -> (r: Vec<String>)
    ensures
        strings_view(r@) == strings_view(v@),
{
    let mut r: Vec<String> = Vec::new();
    let mut i: usize = 0;
    while i < v.len()
        invariant
            i <= v.len(),
            r.len() == i,
            forall|j: int| 0 <= j < i ==> r[j]@ == v[j]@,
        decreases v.len() - i,
    {
        r.push(v[i].clone());
        i = i + 1;
    }
    assert(strings_view(r@) =~= strings_view(v@));
    r
}

/// Copies a byte string.
pub fn copy_bytes(v: &Vec<u8>) -> (r: Vec<u8>)
    ensures
        r@ == v@,
{
    let mut r: Vec<u8> = Vec::new();
    let mut i: usize = 0;
    while i < v.len()
        invariant
            i <= v.len(),
            r@ == v@.subrange(0, i as int),
        decreases v.len() - i,
    {
        r.push(v[i]);
        i = i + 1;
        assert(r@ =~= v@.subrange(0, i as int));
    }
    assert(v@ =~= v@.subrange(0, i as int));
    r
}

/// Copies a list of byte strings.
pub fn copy_blobs(v: &Vec<Vec<u8>>) -> (r: Vec<Vec<u8>>)
    ensures
        blobs_view(r@) == blobs_view(v@),
{
    let mut r: Vec<Vec<u8>> = Vec::new();
    let mut i: usize = 0;
    while i < v.len()
        invariant
            i <= v.len(),
            r.len() == i,
            forall|j: int| 0 <= j < i ==> r[j]@ == v[j]@,
        decreases v.len() - i,
    {
        r.push(copy_bytes(&v[i]));
        i = i + 1;
    }
    assert(blobs_view(r@) =~= blobs_view(v@));
    r
}

impl AttributeValue {
    /// A copy with the same view.
    pub fn copy(&self) -> (r: AttributeValue)
        ensures
            r@ == self@,
        decreases self,
    {
        match self {
            AttributeValue::S(s) => AttributeValue::S(s.clone()),
            AttributeValue::N(s) => AttributeValue::N(s.clone()),
            AttributeValue::B(b) => AttributeValue::B(copy_bytes(b)),
            AttributeValue::Bool(b) => AttributeValue::Bool(*b),
            AttributeValue::Null => AttributeValue::Null,
            AttributeValue::SS(v) => AttributeValue::SS(copy_strings(v)),
            AttributeValue::NS(v) => AttributeValue::NS(copy_strings(v)),
            AttributeValue::BS(v) => AttributeValue::BS(copy_blobs(v)),
            AttributeValue::L(v) => {
                let mut r: Vec<AttributeValue> = Vec::new();
                let mut i: usize = 0;
                while i < v.len()
                    invariant
                        *self == AttributeValue::L(*v),
                        i <= v.len(),
                        r.len() == i,
                        forall|j: int| 0 <= j < i ==> r[j]@ == v[j]@,
                    decreases v.len() - i,
                {
                    proof {
                        assert(decreases_to!(*self => self->L_0));
                        assert(decreases_to!(*v => v[i as int]));
                    }
                    r.push(v[i].copy());
                    i = i + 1;
                }
                let r = AttributeValue::L(r);
                assert(r@ == self@) by {
                    if let AttrView::L(a) = r@ {
                        if let AttrView::L(b) = self@ {
                            assert(a =~= b);
                        }
                    }
                }
                r
            },
            AttributeValue::M(m) => {
                let mut r: Vec<(String, AttributeValue)> = Vec::new();
                let mut i: usize = 0;
                while i < m.entries.len()
                    invariant
                        *self == AttributeValue::M(*m),
                        i <= m.entries.len(),
                        r.len() == i,
                        forall|j: int| 0 <= j < i ==> r[j].0@ == m.entries[j].0@ && r[j].1@ == m.entries[j].1@,
                    decreases m.entries.len() - i,
                {
                    proof {
                        assert(decreases_to!(*self => self->M_0));
                        assert(decreases_to!(self->M_0 => self->M_0.entries));
                        assert(decreases_to!(m.entries => m.entries[i as int]));
                        assert(decreases_to!(m.entries[i as int] => m.entries[i as int].1));
                    }
                    r.push((m.entries[i].0.clone(), m.entries[i].1.copy()));
                    i = i + 1;
                }
                let r = AttributeValue::M(Attributes { entries: r });
                assert(r@ == self@) by {
                    if let AttrView::M(a) = r@ {
                        if let AttrView::M(b) = self@ {
                            assert(a =~= b);
                        }
                    }
                }
                r
            },
        }
    }
}

/// The view of a map value is the view of its entries.
pub broadcast proof fn lemma_map_value_view(a: Attributes)
    ensures
        #[trigger] AttributeValue::M(a)@ == AttrView::M(a@),
{
    if let AttrView::M(s) = AttributeValue::M(a)@ {
        assert(s =~= a@);
    }
}

/// Where two entry lists have the same keys in the same order, a key is
/// found at the same position in both.
pub proof fn lemma_index_unique<V, W>(s: Seq<(Seq<char>, V)>, t: Seq<(Seq<char>, W)>, k: Seq<char>)
    requires
        s.len() == t.len(),
        forall|i: int| 0 <= i < s.len() ==> s[i].0 == t[i].0,
    ensures
        index_of(s, k) == index_of(t, k),
{
    lemma_index_of(s, k);
    lemma_index_of(t, k);
    let a = index_of(s, k);
    let b = index_of(t, k);
    if a >= 0 && b >= 0 {
        if a < b {
            assert(t[a].0 == k);
        } else if b < a {
            assert(s[b].0 == k);
        }
    }
}

/// Looking up a key after an insert finds the inserted value at that key and
/// what was there before at any other.
pub proof fn lemma_lookup_insert<V>(s: Seq<(Seq<char>, V)>, k: Seq<char>, v: V, k2: Seq<char>)
    ensures
        lookup(entries_insert(s, k, v), k2) == if k2 == k {
            Some(v)
        } else {
            lookup(s, k2)
        },
{
    lemma_index_of(s, k);
    let i = index_of(s, k);
    let t = entries_insert(s, k, v);
    if i >= 0 {
        lemma_index_unique(s, t, k2);
        lemma_index_of(t, k2);
    } else {
        assert(t.drop_last() =~= s);
        lemma_index_of(s, k2);
    }
}

proof fn lemma_index_prefix<V>(s: Seq<(Seq<char>, V)>, k: Seq<char>, i: int)
    requires
        0 <= i < s.len(),
        index_of(s.subrange(0, i), k) == -1,
        s[i].0 == k,
    ensures
        index_of(s, k) == i,
    decreases s.len(),
{
    if i == s.len() - 1 {
        assert(s.drop_last() =~= s.subrange(0, i));
    } else {
        assert(s.drop_last().subrange(0, i) =~= s.subrange(0, i));
        lemma_index_prefix(s.drop_last(), k, i);
    }
}

} // verus!
