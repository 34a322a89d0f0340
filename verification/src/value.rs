//! The Typst values that the library produces, modelled on
//! `typst::foundations::Value`: the kinds of value that a Lua value can become.
//! A float is carried by the bits of its IEEE 754 representation.
use vstd::prelude::*;

verus! {

/// The mathematical view of a [`TypstValue`].
pub enum TypstV {
    Nothing,
    Bool(bool),
    Int(i64),
    Float(u64),
    Str(Seq<char>),
    Bytes(Seq<u8>),
    Array(Seq<TypstV>),
    Dict(Seq<(Seq<char>, TypstV)>),
}

/// A Typst value.
#[derive(Debug, PartialEq)]
pub enum TypstValue {
    /// The absence of a meaningful value (Typst's `none`).
    Nothing,
    /// A boolean.
    Bool(bool),
    /// An integer.
    Int(i64),
    /// A floating-point number, by the bits of its IEEE 754 representation.
    Float(u64),
    /// A string.
    Str(String),
    /// Raw bytes.
    Bytes(Vec<u8>),
    /// An array of values.
    Array(Vec<TypstValue>),
    /// A dictionary from strings to values.
    Dict(TypstDict),
}

/// A dictionary: string keys, each with a value, in insertion order. Every
/// dictionary that the library builds has distinct keys ([`TypstDict::wf`]).
#[derive(Debug, PartialEq)]
pub struct TypstDict {
    pub entries: Vec<(String, TypstValue)>,
}

/// The view of an array's elements.
pub open spec fn array_view(a: Seq<TypstValue>) -> Seq<TypstV>
    decreases a,
{
    Seq::new(a.len(), |i: int| if 0 <= i < a.len() { value_view(a[i]) } else { TypstV::Nothing })
}

/// The view of a dictionary's entries.
pub open spec fn entries_view(e: Seq<(String, TypstValue)>) -> Seq<(Seq<char>, TypstV)>
    decreases e,
{
    Seq::new(
        e.len(),
        |i: int|
            if 0 <= i < e.len() {
                (e[i].0@, value_view(e[i].1))
            } else {
                (Seq::empty(), TypstV::Nothing)
            },
    )
}

/// The mathematical value of a Typst value.
pub open spec fn value_view(v: TypstValue) -> TypstV
    decreases v,
{
    match v {
        TypstValue::Nothing => TypstV::Nothing,
        TypstValue::Bool(b) => TypstV::Bool(b),
        TypstValue::Int(i) => TypstV::Int(i),
        TypstValue::Float(f) => TypstV::Float(f),
        TypstValue::Str(s) => TypstV::Str(s@),
        TypstValue::Bytes(b) => TypstV::Bytes(b@),
        TypstValue::Array(a) => TypstV::Array(array_view(a@)),
        TypstValue::Dict(d) => TypstV::Dict(entries_view(d.entries@)),
    }
}

impl View for TypstValue {
    type V = TypstV;

    open spec fn view(&self) -> TypstV {
        value_view(*self)
    }
}

impl View for TypstDict {
    type V = Seq<(Seq<char>, TypstV)>;

    open spec fn view(&self) -> Seq<(Seq<char>, TypstV)> {
        entries_view(self.entries@)
    }
}

/// No key occurs twice.
pub open spec fn keys_distinct(m: Seq<(Seq<char>, TypstV)>) -> bool {
    forall|i: int, j: int| 0 <= i < j < m.len() ==> m[i].0 != m[j].0
}

/// The key occurs in the dictionary.
pub open spec fn has_key(m: Seq<(Seq<char>, TypstV)>, k: Seq<char>) -> bool {
    exists|i: int| 0 <= i < m.len() && m[i].0 == k
}

/// The position of a key that occurs in the dictionary.
pub open spec fn key_index(m: Seq<(Seq<char>, TypstV)>, k: Seq<char>) -> int {
    choose|i: int| 0 <= i < m.len() && m[i].0 == k
}

/// Insertion into an insertion-ordered map (as `IndexMap::insert`, which
/// `typst::foundations::Dict::insert` calls): a key already present keeps its
/// place and takes the new value; a new key goes at the end.
pub open spec fn dict_insert(m: Seq<(Seq<char>, TypstV)>, k: Seq<char>, v: TypstV) -> Seq<
    (Seq<char>, TypstV),
> {
    if has_key(m, k) {
        m.update(key_index(m, k), (k, v))
    } else {
        m.push((k, v))
    }
}

/// The value that a key maps to, if it occurs.
pub open spec fn dict_get(m: Seq<(Seq<char>, TypstV)>, k: Seq<char>) -> Option<TypstV> {
    if has_key(m, k) {
        Some(m[key_index(m, k)].1)
    } else {
        None
    }
}

/// Inserting keeps keys distinct; afterwards the key maps to the inserted
/// value, every other key maps to what it mapped to before, and the
/// dictionary grows by one entry exactly when the key was new.
pub proof fn law_insert_then_get(m: Seq<(Seq<char>, TypstV)>, k: Seq<char>, v: TypstV, other: Seq<char>)
    requires
        keys_distinct(m),
    ensures
        keys_distinct(dict_insert(m, k, v)),
        dict_get(dict_insert(m, k, v), k) == Some(v),
        other != k ==> dict_get(dict_insert(m, k, v), other) == dict_get(m, other),
        dict_insert(m, k, v).len() == if has_key(m, k) {
            m.len()
        } else {
            m.len() + 1
        },
{
    let r = dict_insert(m, k, v);
    if has_key(m, k) {
        let i = key_index(m, k);
        assert(r[i].0 == k);
        assert(key_index(r, k) == i);
        if has_key(m, other) && other != k {
            let j = key_index(m, other);
            assert(r[j].0 == other);
            assert(key_index(r, other) == j);
        }
        if has_key(r, other) && other != k {
            let j = key_index(r, other);
            assert(m[j].0 == other);
        }
    } else {
        assert(r[m.len() as int].0 == k);
        assert(key_index(r, k) == m.len());
        if has_key(m, other) && other != k {
            let j = key_index(m, other);
            assert(r[j].0 == other);
            assert(key_index(r, other) == j);
        }
        if has_key(r, other) && other != k {
            let j = key_index(r, other);
            assert(m[j].0 == other);
        }
    }
}

/// Copies a value, element by element.
fn copy_value(v: &TypstValue) -> (r: TypstValue)
    ensures
        r@ == v@,
    decreases v,
{
    match v {
        TypstValue::Nothing => TypstValue::Nothing,
        TypstValue::Bool(b) => TypstValue::Bool(*b),
        TypstValue::Int(i) => TypstValue::Int(*i),
        TypstValue::Float(f) => TypstValue::Float(*f),
        TypstValue::Str(s) => TypstValue::Str(s.clone()),
        TypstValue::Bytes(b) => {
            let c = b.clone();
            assert(c@ =~= b@);
            TypstValue::Bytes(c)
        },
        TypstValue::Array(a) => {
            let mut out: Vec<TypstValue> = Vec::new();
            let mut k: usize = 0;
            while k < a.len()
                invariant
                    k <= a.len(),
                    *v == TypstValue::Array(*a),
                    out@.len() == k,
                    forall|j: int| 0 <= j < k ==> value_view(#[trigger] out@[j]) == value_view(a@[j]),
                decreases a.len() - k,
            {
                proof {
                    assert(decreases_to!(*v => v->Array_0));
                    assert(decreases_to!(*a => a@[k as int]));
                }
                let c = copy_value(&a[k]);
                out.push(c);
                k += 1;
            }
            assert(array_view(out@) =~= array_view(a@));
            TypstValue::Array(out)
        },
        TypstValue::Dict(d) => {
            let mut out: Vec<(String, TypstValue)> = Vec::new();
            let mut k: usize = 0;
            while k < d.entries.len()
                invariant
                    k <= d.entries.len(),
                    *v == TypstValue::Dict(*d),
                    out@.len() == k,
                    forall|j: int|
                        0 <= j < k ==> (#[trigger] out@[j]).0@ == d.entries@[j].0@ && value_view(
                            out@[j].1,
                        ) == value_view(d.entries@[j].1),
                decreases d.entries.len() - k,
            {
                proof {
                    assert(decreases_to!(*v => v->Dict_0));
                    assert(decreases_to!(*d => d.entries));
                    assert(decreases_to!(d.entries => d.entries@[k as int]));
                    assert(decreases_to!(d.entries@[k as int] => d.entries@[k as int].1));
                }
                let key = d.entries[k].0.clone();
                let c = copy_value(&d.entries[k].1);
                out.push((key, c));
                k += 1;
            }
            assert(entries_view(out@) =~= entries_view(d.entries@));
            TypstValue::Dict(TypstDict { entries: out })
        },
    }
}

impl Clone for TypstValue {
    fn clone(&self) -> (r: Self)
        ensures
            r@ == self@,
    {
        copy_value(self)
    }
}

impl TypstDict {
    /// Every key occurs once.
    pub open spec fn wf(&self) -> bool {
        keys_distinct(self@)
    }

    /// An empty dictionary.
    pub fn new() -> (d: Self)
        ensures
            d@ == Seq::<(Seq<char>, TypstV)>::empty(),
            d.wf(),
    {
        let d = TypstDict { entries: Vec::new() };
        assert(d@ =~= Seq::<(Seq<char>, TypstV)>::empty());
        d
    }

    /// The number of entries.
    pub fn len(&self) -> (n: usize)
        ensures
            n == self@.len(),
    {
        self.entries.len()
    }

    /// Inserts a pair: a key already present keeps its place and takes the new
    /// value; a new key goes at the end.
    pub fn insert(&mut self, key: String, value: TypstValue)
        requires
            old(self).wf(),
        ensures
            final(self).wf(),
            final(self)@ == dict_insert(old(self)@, key@, value@),
    {
        let ghost m = self@;
        let mut i: usize = 0;
        while i < self.entries.len()
            invariant
                i <= self.entries.len(),
                self@ == m,
                m == old(self)@,
                keys_distinct(m),
                forall|j: int| 0 <= j < i ==> m[j].0 != key@,
            decreases self.entries.len() - i,
        {
            if self.entries[i].0 == key {
                assert(m[i as int].0 == key@);
                assert(has_key(m, key@));
                assert(key_index(m, key@) == i as int);
                self.entries.set(i, (key, value));
                assert(self@ =~= dict_insert(m, key@, value@));
                return;
            }
            i += 1;
        }
        assert(!has_key(m, key@));
        self.entries.push((key, value));
        assert(self@ =~= dict_insert(m, key@, value@));
    }

    /// The value that a key maps to, if it occurs.
    pub fn get(&self, key: &String) -> (res: Option<&TypstValue>)
        requires
            self.wf(),
        ensures
            match res {
                Some(v) => dict_get(self@, key@) == Some(v@),
                None => dict_get(self@, key@) is None,
            },
    {
        let mut i: usize = 0;
        while i < self.entries.len()
            invariant
                i <= self.entries.len(),
                keys_distinct(self@),
                forall|j: int| 0 <= j < i ==> self@[j].0 != key@,
            decreases self.entries.len() - i,
        {
            if self.entries[i].0 == *key {
                assert(self@[i as int].0 == key@);
                assert(key_index(self@, key@) == i as int);
                return Some(&self.entries[i].1);
            }
            i += 1;
        }
        None
    }
}

} // verus!
