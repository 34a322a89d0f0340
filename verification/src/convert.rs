//! Conversion of Lua values into Typst values.
//!
//! A Lua table becomes a Typst array only when it is a dense, 1-indexed
//! sequence: its keys are exactly the integers 1, 2, ..., n, whatever the
//! order in which Lua walks them; the array holds the values ordered by key.
//! Otherwise it becomes a dictionary whose keys are the table's keys rendered
//! as strings. The data handed to a document (its `sys.inputs`) is always a
//! dictionary.
use vstd::prelude::*;
use vstd::utf8::{decode_utf8, valid_utf8};
use crate::lua::{LuaError, LuaErrorV, LuaNumber, LuaTable, LuaValue};
use crate::text::{
    bool_text, bool_to_text, decimal, i64_text, lemma_nat_digits_injective, utf8_error_text, utf8_text,
};
use crate::value::{array_view, dict_get, dict_insert, has_key, keys_distinct, law_insert_then_get, TypstDict, TypstV, TypstValue};
use vstd::string::StringExecFns;

verus! {

/// What a conversion has built after some of a table's pairs: the values
/// converted so far, in the order of their pairs, and the dictionary of all
/// pairs under their keys rendered as strings.
pub struct FoldState {
    pub vals: Seq<TypstV>,
    pub map: Seq<(Seq<char>, TypstV)>,
}

/// The state before any pair.
pub open spec fn initial_state() -> FoldState {
    FoldState { vals: Seq::empty(), map: Seq::empty() }
}

/// The integer that a key stands for as an index: an integer, or a float
/// without fractional part.
pub open spec fn key_as_index(k: LuaValue) -> Option<i64> {
    match k {
        LuaValue::Integer(i) => Some(i),
        LuaValue::Number(n) => n.integral,
        _ => None,
    }
}

/// How a key that cannot become a dictionary key is shown in the error
/// message: its `Debug` rendering as `mlua::Value`, which writes a float as
/// `Number(` and the float's `Display` text, then `)`.
pub open spec fn unsupported_key_text(k: LuaValue) -> Seq<char> {
    match k {
        LuaValue::Nil => "Nil"@,
        LuaValue::Number(n) => "Number("@ + n.text@ + ")"@,
        LuaValue::Table(t) => t.debug@,
        LuaValue::UserData(h) => h.debug@,
        LuaValue::Other(h) => h.debug@,
        _ => Seq::empty(),
    }
}

/// The error of a Lua string that is not UTF-8 where text is needed, as
/// `mlua::String::to_str` reports it.
pub open spec fn not_utf8_error(bytes: Seq<u8>) -> LuaErrorV {
    LuaErrorV::FromLuaConversionError {
        from: "string"@,
        to: "&str"@,
        message: Some(utf8_error_text(bytes)),
    }
}

/// A key rendered as a dictionary key: an index in decimal, a UTF-8 string
/// as its text, a boolean as "true" or "false". Other keys have none.
pub open spec fn key_text(k: LuaValue) -> Option<Seq<char>> {
    match key_as_index(k) {
        Some(idx) => Some(decimal(idx as int)),
        None => match k {
            LuaValue::String(s) => if valid_utf8(s@) {
                Some(decode_utf8(s@))
            } else {
                None
            },
            LuaValue::Boolean(b) => Some(bool_text(b)),
            _ => None,
        },
    }
}

/// The error of a key that has no rendering.
pub open spec fn key_error(k: LuaValue) -> LuaErrorV {
    match k {
        LuaValue::String(s) => not_utf8_error(s@),
        _ => LuaErrorV::RuntimeError("Unsupported Lua table key: "@ + unsupported_key_text(k)),
    }
}

/// Puts one pair, whose value has already been converted to `v`, into the
/// dictionary under its rendered key.
pub open spec fn step(m: Seq<(Seq<char>, TypstV)>, key: LuaValue, v: TypstV) -> Result<
    Seq<(Seq<char>, TypstV)>,
    LuaErrorV,
> {
    match key_text(key) {
        Some(s) => Ok(dict_insert(m, s, v)),
        None => Err(key_error(key)),
    }
}

/// Converts the pairs one after the other; the first error stops it. The
/// value of a pair is converted before its key is looked at.
pub open spec fn fold_pairs(p: Seq<(LuaValue, LuaValue)>) -> Result<FoldState, LuaErrorV>
    decreases p,
{
    if p.len() == 0 {
        Ok(initial_state())
    } else {
        match fold_pairs(p.drop_last()) {
            Err(e) => Err(e),
            Ok(st) => match value_to_typst(p.last().1) {
                Err(e) => Err(e),
                Ok(v) => match step(st.map, p.last().0, v) {
                    Err(e) => Err(e),
                    Ok(m) => Ok(FoldState { vals: st.vals.push(v), map: m }),
                },
            },
        }
    }
}

/// The index that each pair's key stands for, in the order of the pairs.
pub open spec fn key_indices(p: Seq<(LuaValue, LuaValue)>) -> Seq<Option<i64>> {
    Seq::new(p.len(), |i: int| key_as_index(p[i].0))
}

/// The optional index is the index `k`.
pub open spec fn names_index(o: Option<i64>, k: int) -> bool {
    o matches Some(q) && q == k
}

/// The index `k` is among the indices.
pub open spec fn index_occurs(ix: Seq<Option<i64>>, k: int) -> bool {
    exists|i: int| 0 <= i < ix.len() && names_index(ix[i], k)
}

/// The indices are exactly 1, 2, ..., n, where n is their number, each once:
/// a dense, 1-indexed sequence in some order.
pub open spec fn dense_indices(ix: Seq<Option<i64>>) -> bool {
    &&& forall|i: int| 0 <= i < ix.len() ==> (#[trigger] ix[i] matches Some(k) && 1 <= k <= ix.len())
    &&& forall|i: int, j: int| 0 <= i < j < ix.len() ==> ix[i] != ix[j]
    &&& forall|k: int| 1 <= k <= ix.len() ==> #[trigger] index_occurs(ix, k)
}

/// Where the index `k` stands among the indices.
pub open spec fn position_of(ix: Seq<Option<i64>>, k: int) -> int {
    choose|i: int| 0 <= i < ix.len() && names_index(ix[i], k)
}

/// The values ordered by their indices: the value whose index is 1 first,
/// then the one whose index is 2, and so on.
pub open spec fn in_index_order(ix: Seq<Option<i64>>, vs: Seq<TypstV>) -> Seq<TypstV> {
    Seq::new(ix.len(), |j: int| vs[position_of(ix, j + 1)])
}

/// What a table becomes: an array of its values ordered by key when its keys
/// are exactly 1, 2, ..., n (so also when it is empty), else a dictionary.
pub open spec fn table_to_typst(t: LuaTable) -> Result<TypstV, LuaErrorV>
    decreases t,
{
    match fold_pairs(t.pairs@) {
        Err(e) => Err(e),
        Ok(st) => Ok(
            if dense_indices(key_indices(t.pairs@)) {
                TypstV::Array(in_index_order(key_indices(t.pairs@), st.vals))
            } else {
                TypstV::Dict(st.map)
            },
        ),
    }
}

/// What a Lua value becomes.
pub open spec fn value_to_typst(v: LuaValue) -> Result<TypstV, LuaErrorV>
    decreases v,
{
    match v {
        LuaValue::Nil => Ok(TypstV::Nothing),
        LuaValue::Boolean(b) => Ok(TypstV::Bool(b)),
        LuaValue::Number(n) => Ok(TypstV::Float(n.bits)),
        LuaValue::Integer(i) => Ok(TypstV::Int(i)),
        LuaValue::String(s) => if valid_utf8(s@) {
            Ok(TypstV::Str(decode_utf8(s@)))
        } else {
            Ok(TypstV::Bytes(s@))
        },
        LuaValue::Table(t) => table_to_typst(t),
        LuaValue::UserData(_) => Err(
            LuaErrorV::RuntimeError("Lua userdata cannot be converted to Typst value"@),
        ),
        LuaValue::Other(h) => Err(LuaErrorV::RuntimeError("Unsupported Lua value: "@ + h.debug@)),
    }
}

/// The data that a table hands to a document: the table always becomes a
/// dictionary, whose keys are the table's keys rendered as strings.
pub open spec fn table_to_inputs(t: LuaTable) -> Result<Seq<(Seq<char>, TypstV)>, LuaErrorV> {
    match fold_pairs(t.pairs@) {
        Err(e) => Err(e),
        Ok(st) => Ok(st.map),
    }
}

/// The view of a conversion's outcome.
pub open spec fn outcome_view(r: Result<TypstValue, LuaError>) -> Result<TypstV, LuaErrorV> {
    match r {
        Ok(v) => Ok(v@),
        Err(e) => Err(e@),
    }
}

/// What a conversion has built after all of a table's pairs: the converted
/// values, the index that each key stands for, and the dictionary.
struct Folded {
    vals: Vec<TypstValue>,
    ixs: Vec<Option<i64>>,
    map: TypstDict,
}

/// The index that a key stands for.
pub(crate) fn index_of_key(key: &LuaValue) -> (r: Option<i64>)
    ensures
        r == key_as_index(*key),
{
    match key {
        LuaValue::Integer(i) => Some(*i),
        LuaValue::Number(n) => n.integral,
        _ => None,
    }
}

/// The message of a key that cannot become a dictionary key.
fn unsupported_key(key: &LuaValue) -> (e: LuaError)
    requires
        key_as_index(*key) is None,
        !(key is String),
        !(key is Boolean),
    ensures
        e@ == LuaErrorV::RuntimeError("Unsupported Lua table key: "@ + unsupported_key_text(*key)),
{
    let shown = match key {
        LuaValue::Number(n) => String::from_str("Number(").concat(n.text.as_str()).concat(")"),
        LuaValue::Table(t) => String::from_str(t.debug.as_str()),
        LuaValue::UserData(h) => String::from_str(h.debug.as_str()),
        LuaValue::Other(h) => String::from_str(h.debug.as_str()),
        _ => String::from_str("Nil"),
    };
    let msg = String::from_str("Unsupported Lua table key: ").concat(shown.as_str());
    proof {
        assert(msg@ =~= "Unsupported Lua table key: "@ + unsupported_key_text(*key));
    }
    LuaError::RuntimeError(msg)
}

/// Puts one pair, whose value has already been converted to `v`, into the
/// dictionary, as [`step`] says.
fn add_pair(map: &mut TypstDict, key: &LuaValue, v: TypstValue) -> (res: Result<(), LuaError>)
    requires
        old(map).wf(),
    ensures
        match step(old(map)@, *key, v@) {
            Ok(m) => res is Ok && final(map)@ == m && final(map).wf(),
            Err(e) => res matches Err(r) && r@ == e,
        },
{
    match key {
        LuaValue::Integer(idx) => {
            map.insert(i64_text(*idx), v);
            Ok(())
        },
        LuaValue::Number(n) => {
            match n.integral {
                Some(idx) => {
                    map.insert(i64_text(idx), v);
                    Ok(())
                },
                None => Err(unsupported_key(key)),
            }
        },
        LuaValue::String(s) => {
            match utf8_text(s.as_slice()) {
                Ok(text) => {
                    map.insert(text, v);
                    Ok(())
                },
                Err(detail) => Err(
                    LuaError::FromLuaConversionError {
                        from: String::from_str("string"),
                        to: String::from_str("&str"),
                        message: Some(detail),
                    },
                ),
            }
        },
        LuaValue::Boolean(b) => {
            map.insert(bool_to_text(*b), v);
            Ok(())
        },
        _ => Err(unsupported_key(key)),
    }
}

/// Places the values by their indices. When the indices are exactly 1, 2,
/// ..., n (n the number of values), each once, the result is the array whose
/// element at position k - 1 is the value with index k; otherwise there is
/// none.
pub fn dense_array(ix: &Vec<Option<i64>>, vs: &Vec<TypstValue>) -> (res: Option<Vec<TypstValue>>)
    requires
        ix@.len() == vs@.len(),
    ensures
        res is Some <==> dense_indices(ix@),
        res matches Some(a) ==> array_view(a@) == in_index_order(ix@, array_view(vs@)),
{
    let n = ix.len();
    let mut slots: Vec<Option<TypstValue>> = Vec::new();
    let mut j: usize = 0;
    while j < n
        invariant
            j <= n,
            n == ix@.len(),
            slots@.len() == j,
            forall|s: int| 0 <= s < j ==> (#[trigger] slots@[s]) is None,
        decreases n - j,
    {
        slots.push(None);
        j += 1;
    }
    let mut i: usize = 0;
    while i < n
        invariant
            i <= n,
            n == ix@.len(),
            n == vs@.len(),
            slots@.len() == n,
            forall|a: int| 0 <= a < i ==> (#[trigger] ix@[a] matches Some(k) && 1 <= k <= n),
            forall|a: int, b: int| 0 <= a < b < i ==> ix@[a] != ix@[b],
            forall|a: int|
                #![trigger ix@[a]]
                0 <= a < i ==> (slots@[ix@[a]->0 - 1] matches Some(v) && v@ == vs@[a]@),
            forall|s: int|
                0 <= s < n && (#[trigger] slots@[s]) is Some ==> exists|a: int|
                    0 <= a < i && names_index(ix@[a], s + 1),
        decreases n - i,
    {
        match ix[i] {
            Some(k) => {
                if k < 1 || (k as u64) > (n as u64) {
                    assert(!dense_indices(ix@));
                    return None;
                }
                let s = (k - 1) as usize;
                match &slots[s] {
                    Some(_) => {
                        proof {
                            let a = choose|a: int| 0 <= a < i && names_index(ix@[a], s + 1);
                            assert(ix@[a] == ix@[i as int]);
                        }
                        return None;
                    },
                    None => {},
                }
                proof {
                    assert forall|a: int| 0 <= a < i implies ix@[a] != ix@[i as int] by {
                        if ix@[a] == ix@[i as int] {
                            assert(slots@[ix@[a]->0 - 1] is Some);
                        }
                    }
                }
                let c = vs[i].clone();
                slots.set(s, Some(c));
                proof {
                    assert forall|s2: int| 0 <= s2 < n && (#[trigger] slots@[s2]) is Some implies exists|a: int|
                        0 <= a < i + 1 && names_index(ix@[a], s2 + 1) by {
                        if s2 == s as int {
                            assert(names_index(ix@[i as int], s2 + 1));
                        } else {
                            let a = choose|a: int| 0 <= a < i && names_index(ix@[a], s2 + 1);
                            assert(0 <= a < i + 1 && names_index(ix@[a], s2 + 1));
                        }
                    }
                }
            },
            None => {
                assert(!dense_indices(ix@));
                return None;
            },
        }
        i += 1;
    }
    let mut out: Vec<TypstValue> = Vec::new();
    let mut j: usize = 0;
    while j < n
        invariant
            j <= n,
            n == ix@.len(),
            n == vs@.len(),
            slots@.len() == n,
            out@.len() == j,
            forall|a: int| 0 <= a < n ==> (#[trigger] ix@[a] matches Some(k) && 1 <= k <= n),
            forall|a: int, b: int| 0 <= a < b < n ==> ix@[a] != ix@[b],
            forall|a: int|
                #![trigger ix@[a]]
                0 <= a < n ==> (slots@[ix@[a]->0 - 1] matches Some(v) && v@ == vs@[a]@),
            forall|s: int|
                0 <= s < n && (#[trigger] slots@[s]) is Some ==> exists|a: int|
                    0 <= a < n && names_index(ix@[a], s + 1),
            forall|b: int| 0 <= b < j ==> #[trigger] index_occurs(ix@, b + 1),
            forall|b: int|
                0 <= b < j ==> (#[trigger] out@[b])@ == vs@[position_of(ix@, b + 1)]@,
        decreases n - j,
    {
        match &slots[j] {
            Some(v) => {
                proof {
                    assert(slots@[j as int] is Some);
                    let a = choose|a: int| 0 <= a < n && names_index(ix@[a], j + 1);
                    assert(index_occurs(ix@, j + 1));
                    let p = position_of(ix@, j + 1);
                    assert(ix@[p] == ix@[a]);
                    assert(p == a);
                    assert(ix@[a]->0 - 1 == j as int);
                    assert(slots@[ix@[a]->0 - 1] matches Some(w) && w@ == vs@[a]@);
                    assert(v@ == vs@[p]@);
                }
                let c = v.clone();
                let ghost old_out = out@;
                out.push(c);
                proof {
                    assert forall|b: int| 0 <= b < j + 1 implies (#[trigger] out@[b])@ == vs@[position_of(ix@, b + 1)]@ by {
                        if b < j {
                            assert(out@[b] == old_out[b]);
                        }
                    }
                }
            },
            None => {
                proof {
                    assert(slots@[j as int] is None);
                    if dense_indices(ix@) {
                        assert(index_occurs(ix@, j + 1));
                        let a = choose|a: int| 0 <= a < n && names_index(ix@[a], j + 1);
                        assert(ix@[a]->0 - 1 == j as int);
                        assert(slots@[ix@[a]->0 - 1] is Some);
                    }
                }
                return None;
            },
        }
        j += 1;
    }
    proof {
        assert forall|k: int| 1 <= k <= n implies #[trigger] index_occurs(ix@, k) by {
            assert(index_occurs(ix@, (k - 1) + 1));
        }
        assert forall|b: int| 0 <= b < n implies array_view(out@)[b] == in_index_order(ix@, array_view(vs@))[b] by {
            assert(index_occurs(ix@, b + 1));
            let p = position_of(ix@, b + 1);
            assert(0 <= p < n);
        }
        assert(array_view(out@) =~= in_index_order(ix@, array_view(vs@)));
    }
    Some(out)
}

/// Unfolds the conversion of the first `k + 1` pairs into that of the first
/// `k` and the pair at `k`.
proof fn lemma_fold_next(p: Seq<(LuaValue, LuaValue)>, k: int)
    requires
        0 <= k < p.len(),
    ensures
        fold_pairs(p.take(k + 1)) == (match fold_pairs(p.take(k)) {
            Err(e) => Err(e),
            Ok(st) => match value_to_typst(p[k].1) {
                Err(e) => Err(e),
                Ok(v) => match step(st.map, p[k].0, v) {
                    Err(e) => Err(e),
                    Ok(m) => Ok(FoldState { vals: st.vals.push(v), map: m }),
                },
            },
        }),
{
    assert(p.take(k + 1).drop_last() =~= p.take(k));
    assert(p.take(k + 1).last() == p[k]);
}

/// Once a prefix of the pairs fails, the whole conversion fails the same way.
proof fn lemma_fold_error_persists(p: Seq<(LuaValue, LuaValue)>, k: int, e: LuaErrorV)
    requires
        0 <= k <= p.len(),
        fold_pairs(p.take(k)) == Err::<FoldState, LuaErrorV>(e),
    ensures
        fold_pairs(p) == Err::<FoldState, LuaErrorV>(e),
    decreases p.len() - k,
{
    if k == p.len() {
        assert(p.take(k) =~= p);
    } else {
        lemma_fold_next(p, k);
        lemma_fold_error_persists(p, k + 1, e);
    }
}

impl LuaTable {
    /// Converts every pair in order, collecting the values, the indices of
    /// the keys and the dictionary.
    fn fold(&self) -> (res: Result<Folded, LuaError>)
        ensures
            match res {
                Ok(f) => {
                    &&& fold_pairs(self.pairs@) matches Ok(st)
                    &&& st.vals == array_view(f.vals@)
                    &&& st.map == f.map@
                    &&& f.ixs@ == key_indices(self.pairs@)
                    &&& f.vals@.len() == f.ixs@.len()
                    &&& f.map.wf()
                },
                Err(e) => fold_pairs(self.pairs@) == Err::<FoldState, LuaErrorV>(e@),
            },
        decreases self, 0nat,
    {
        let mut vals: Vec<TypstValue> = Vec::new();
        let mut ixs: Vec<Option<i64>> = Vec::new();
        let mut map = TypstDict::new();
        let mut k: usize = 0;
        proof {
            assert(self.pairs@.take(0) =~= Seq::<(LuaValue, LuaValue)>::empty());
            assert(array_view(vals@) =~= Seq::<TypstV>::empty());
            assert(ixs@ =~= key_indices(self.pairs@.take(0)));
        }
        while k < self.pairs.len()
            invariant
                k <= self.pairs@.len(),
                map.wf(),
                vals@.len() == k,
                ixs@ == key_indices(self.pairs@.take(k as int)),
                fold_pairs(self.pairs@.take(k as int)) == Ok::<FoldState, LuaErrorV>(
                    FoldState { vals: array_view(vals@), map: map@ },
                ),
            decreases self.pairs@.len() - k,
        {
            proof {
                lemma_fold_next(self.pairs@, k as int);
                assert(decreases_to!(*self => self.pairs));
                assert(decreases_to!(self.pairs => self.pairs@[k as int]));
                assert(decreases_to!(self.pairs@[k as int] => self.pairs@[k as int].1));
            }
            let pair = &self.pairs[k];
            let v = match pair.1.to_typst() {
                Ok(v) => v,
                Err(e) => {
                    proof {
                        lemma_fold_error_persists(self.pairs@, k + 1, e@);
                    }
                    return Err(e);
                },
            };
            let c = v.clone();
            match add_pair(&mut map, &pair.0, c) {
                Ok(()) => {},
                Err(e) => {
                    proof {
                        lemma_fold_error_persists(self.pairs@, k + 1, e@);
                    }
                    return Err(e);
                },
            }
            let ghost old_vals = vals@;
            vals.push(v);
            ixs.push(index_of_key(&pair.0));
            proof {
                assert(array_view(vals@) =~= array_view(old_vals).push(v@));
                assert(ixs@ =~= key_indices(self.pairs@.take(k + 1)));
            }
            k += 1;
        }
        proof {
            assert(self.pairs@.take(self.pairs@.len() as int) =~= self.pairs@);
        }
        Ok(Folded { vals, ixs, map })
    }

    /// Converts a Lua table into a Typst value: an array of its values
    /// ordered by key when its keys are exactly 1, 2, ..., n; otherwise a
    /// dictionary.
    pub fn to_typst(&self) -> (res: Result<TypstValue, LuaError>)
        ensures
            outcome_view(res) == table_to_typst(*self),
        decreases self, 1nat,
    {
        match self.fold() {
            Ok(f) => match dense_array(&f.ixs, &f.vals) {
                Some(a) => Ok(TypstValue::Array(a)),
                None => Ok(TypstValue::Dict(f.map)),
            },
            Err(e) => Err(e),
        }
    }

    /// The data that the table hands to a document: always a dictionary,
    /// whose keys are the table's keys rendered as strings.
    pub fn to_inputs(&self) -> (res: Result<TypstDict, LuaError>)
        ensures
            match res {
                Ok(d) => table_to_inputs(*self) == Ok::<Seq<(Seq<char>, TypstV)>, LuaErrorV>(d@)
                    && d.wf(),
                Err(e) => table_to_inputs(*self) == Err::<Seq<(Seq<char>, TypstV)>, LuaErrorV>(e@),
            },
    {
        match self.fold() {
            Ok(f) => Ok(f.map),
            Err(e) => Err(e),
        }
    }
}

impl LuaValue {
    /// Converts a Lua value into a Typst value.
    pub fn to_typst(&self) -> (res: Result<TypstValue, LuaError>)
        ensures
            outcome_view(res) == value_to_typst(*self),
        decreases self, 0nat,
    {
        match self {
            LuaValue::Nil => Ok(TypstValue::Nothing),
            LuaValue::Boolean(b) => Ok(TypstValue::Bool(*b)),
            LuaValue::Number(n) => Ok(TypstValue::Float(n.bits)),
            LuaValue::Integer(i) => Ok(TypstValue::Int(*i)),
            LuaValue::String(s) => match utf8_text(s.as_slice()) {
                Ok(text) => Ok(TypstValue::Str(text)),
                Err(_) => {
                    let bytes = s.clone();
                    assert(bytes@ =~= s@);
                    Ok(TypstValue::Bytes(bytes))
                },
            },
            LuaValue::Table(t) => {
                proof {
                    assert(decreases_to!(*self => self->Table_0));
                }
                t.to_typst()
            },
            LuaValue::UserData(_) => Err(
                LuaError::RuntimeError(
                    String::from_str("Lua userdata cannot be converted to Typst value"),
                ),
            ),
            LuaValue::Other(h) => Err(
                LuaError::RuntimeError(
                    String::from_str("Unsupported Lua value: ").concat(h.debug.as_str()),
                ),
            ),
        }
    }
}

/// The data that a Lua value hands to a document: a table always hands over
/// a dictionary (see [`LuaTable::to_inputs`]); any other value hands over
/// nothing.
pub fn inputs_from_lua(data: &LuaValue) -> (res: Result<Option<TypstDict>, LuaError>)
    ensures
        match *data {
            LuaValue::Table(t) => match res {
                Ok(Some(d)) => table_to_inputs(t) == Ok::<Seq<(Seq<char>, TypstV)>, LuaErrorV>(d@)
                    && d.wf(),
                Ok(None) => false,
                Err(e) => table_to_inputs(t) == Err::<Seq<(Seq<char>, TypstV)>, LuaErrorV>(e@),
            },
            _ => res matches Ok(None),
        },
{
    match data {
        LuaValue::Table(t) => match t.to_inputs() {
            Ok(d) => Ok(Some(d)),
            Err(e) => Err(e),
        },
        _ => Ok(None),
    }
}

/// A value that the conversion accepts: any value but userdata and the other
/// kinds it refuses, and a table only when every key in it renders (an
/// integer, a float without fractional part, a UTF-8 string or a boolean)
/// and every value in it is accepted, at any depth.
pub open spec fn value_supported(v: LuaValue) -> bool
    decreases v,
{
    match v {
        LuaValue::Table(t) => table_supported(t),
        LuaValue::UserData(_) => false,
        LuaValue::Other(_) => false,
        _ => true,
    }
}

/// A table whose every key renders and whose every value is accepted, at
/// any depth.
pub open spec fn table_supported(t: LuaTable) -> bool
    decreases t,
{
    forall|i: int|
        0 <= i < t.pairs@.len() ==> (#[trigger] key_text(t.pairs@[i].0)) is Some && value_supported(
            t.pairs@[i].1,
        )
}

/// The first `k` pairs convert exactly when each of their keys renders and
/// each of their values converts.
proof fn lemma_fold_succeeds(p: Seq<(LuaValue, LuaValue)>, k: int)
    requires
        0 <= k <= p.len(),
    ensures
        fold_pairs(p.take(k)) is Ok <==> forall|i: int|
            0 <= i < k ==> (#[trigger] key_text(p[i].0)) is Some && value_to_typst(p[i].1) is Ok,
    decreases k,
{
    if k == 0 {
        assert(p.take(0) =~= Seq::<(LuaValue, LuaValue)>::empty());
    } else {
        lemma_fold_succeeds(p, k - 1);
        lemma_fold_next(p, k - 1);
        if forall|i: int| 0 <= i < k ==> (#[trigger] key_text(p[i].0)) is Some && value_to_typst(p[i].1) is Ok {
            assert(key_text(p[k - 1].0) is Some);
            assert forall|i: int| 0 <= i < k - 1 implies (#[trigger] key_text(p[i].0)) is Some
                && value_to_typst(p[i].1) is Ok by {
                assert(key_text(p[i].0) is Some);
            }
        }
        if fold_pairs(p.take(k)) is Ok {
            assert(fold_pairs(p.take(k - 1)) is Ok);
            assert(value_to_typst(p[k - 1].1) is Ok);
            assert(key_text(p[k - 1].0) is Some);
            assert forall|i: int| 0 <= i < k implies (#[trigger] key_text(p[i].0)) is Some
                && value_to_typst(p[i].1) is Ok by {
                if i < k - 1 {
                    assert(key_text(p[i].0) is Some);
                }
            }
        }
    }
}

/// A value converts exactly when it is accepted.
proof fn lemma_value_converts(v: LuaValue)
    ensures
        value_to_typst(v) is Ok <==> value_supported(v),
    decreases v,
{
    if let LuaValue::Table(t) = v {
        lemma_table_converts(t);
    }
}

/// A table's pairs convert exactly when the table is accepted.
proof fn lemma_table_converts(t: LuaTable)
    ensures
        fold_pairs(t.pairs@) is Ok <==> table_supported(t),
    decreases t,
{
    let p = t.pairs@;
    lemma_fold_succeeds(p, p.len() as int);
    assert(p.take(p.len() as int) =~= p);
    assert forall|i: int| 0 <= i < p.len() implies (value_to_typst(p[i].1) is Ok <==> value_supported(
        p[i].1,
    )) by {
        assert(decreases_to!(t => t.pairs));
        assert(decreases_to!(t.pairs => t.pairs@[i]));
        assert(decreases_to!(t.pairs@[i] => t.pairs@[i].1));
        lemma_value_converts(p[i].1);
    }
    if table_supported(t) {
        assert forall|i: int| 0 <= i < p.len() implies (#[trigger] key_text(p[i].0)) is Some
            && value_to_typst(p[i].1) is Ok by {
            assert(key_text(t.pairs@[i].0) is Some);
        }
    }
    if fold_pairs(p) is Ok {
        assert forall|i: int| 0 <= i < p.len() implies (#[trigger] key_text(t.pairs@[i].0)) is Some
            && value_supported(t.pairs@[i].1) by {
            assert(key_text(p[i].0) is Some);
        }
    }
}

/// A value converts exactly when it is accepted: when it is neither
/// userdata nor of another refused kind and, if it is a table, every key in
/// it at any depth is an integer, a float without fractional part, a UTF-8
/// string or a boolean, and every value in it is accepted.
pub proof fn law_supported_values_convert(v: LuaValue)
    ensures
        value_to_typst(v) is Ok <==> value_supported(v),
{
    lemma_value_converts(v);
}

/// A table converts, and hands its data to a document, exactly when it is
/// accepted: every key at any depth renders and every value is accepted.
pub proof fn law_supported_tables_convert(t: LuaTable)
    ensures
        table_to_typst(t) is Ok <==> table_supported(t),
        table_to_inputs(t) is Ok <==> table_supported(t),
{
    lemma_table_converts(t);
}

/// A Lua string, of any length, the empty one included, becomes the Typst
/// string of its decoded characters when it is UTF-8 and the Typst bytes of
/// it otherwise; it never becomes none. The other plain values keep their
/// value: nil becomes none, a boolean a boolean, an integer an integer, and
/// a float the float with the same bits.
pub proof fn law_plain_values_convert_to_their_counterparts(bytes: Vec<u8>, b: bool, i: i64, n: LuaNumber)
    ensures
        valid_utf8(bytes@) ==> value_to_typst(LuaValue::String(bytes))
            == Ok::<TypstV, LuaErrorV>(TypstV::Str(decode_utf8(bytes@))),
        !valid_utf8(bytes@) ==> value_to_typst(LuaValue::String(bytes))
            == Ok::<TypstV, LuaErrorV>(TypstV::Bytes(bytes@)),
        value_to_typst(LuaValue::String(bytes)) matches Ok(v) && !(v is Nothing),
        value_to_typst(LuaValue::Nil) == Ok::<TypstV, LuaErrorV>(TypstV::Nothing),
        value_to_typst(LuaValue::Boolean(b)) == Ok::<TypstV, LuaErrorV>(TypstV::Bool(b)),
        value_to_typst(LuaValue::Integer(i)) == Ok::<TypstV, LuaErrorV>(TypstV::Int(i)),
        value_to_typst(LuaValue::Number(n)) == Ok::<TypstV, LuaErrorV>(TypstV::Float(n.bits)),
{
}

/// How a key is rendered as a dictionary key: an integer, or a float without
/// fractional part, in decimal; a UTF-8 string as its decoded characters; a
/// boolean as "true" or "false"; a string that is not UTF-8, a float with a
/// fractional part, and any other kind of key have no rendering.
pub proof fn law_key_rendering(bytes: Vec<u8>, b: bool, i: i64, n: LuaNumber)
    ensures
        key_text(LuaValue::Integer(i)) == Some(decimal(i as int)),
        n.integral matches Some(q) ==> key_text(LuaValue::Number(n)) == Some(decimal(q as int)),
        n.integral is None ==> key_text(LuaValue::Number(n)) is None,
        valid_utf8(bytes@) ==> key_text(LuaValue::String(bytes)) == Some(decode_utf8(bytes@)),
        !valid_utf8(bytes@) ==> key_text(LuaValue::String(bytes)) is None,
        key_text(LuaValue::Boolean(true)) == Some(seq!['t', 'r', 'u', 'e']),
        key_text(LuaValue::Boolean(false)) == Some(seq!['f', 'a', 'l', 's', 'e']),
        key_text(LuaValue::Nil) is None,
{
}

/// The rendered key of the pair at `i` occurs at no later position among the
/// first `k` pairs.
pub open spec fn last_with_its_key(p: Seq<(LuaValue, LuaValue)>, k: int, i: int) -> bool {
    forall|j: int| i < j < k ==> key_text(#[trigger] p[j].0) != key_text(p[i].0)
}

/// No two of the first `k` pairs have the same rendered key.
pub open spec fn rendered_keys_distinct(p: Seq<(LuaValue, LuaValue)>, k: int) -> bool {
    forall|i: int, j: int| 0 <= i < j < k ==> key_text(#[trigger] p[i].0) != key_text(#[trigger] p[j].0)
}

/// What the conversion of the first `k` pairs has built: each value
/// converted in order, and a dictionary with distinct keys that holds exactly
/// the rendered keys of the pairs, each with the value of the last pair that
/// has it.
proof fn lemma_fold_facts(p: Seq<(LuaValue, LuaValue)>, k: int)
    requires
        0 <= k <= p.len(),
        fold_pairs(p.take(k)) is Ok,
    ensures
        ({
            let st = fold_pairs(p.take(k))->Ok_0;
            &&& st.vals.len() == k
            &&& forall|i: int| 0 <= i < k ==> (#[trigger] key_text(p[i].0)) is Some
            &&& forall|i: int|
                0 <= i < k ==> value_to_typst(p[i].1) == Ok::<TypstV, LuaErrorV>(#[trigger] st.vals[i])
            &&& keys_distinct(st.map)
            &&& forall|i: int| 0 <= i < k ==> has_key(st.map, (#[trigger] key_text(p[i].0))->0)
            &&& forall|s: Seq<char>|
                #[trigger] has_key(st.map, s) ==> exists|i: int| 0 <= i < k && key_text(p[i].0) == Some(s)
            &&& forall|i: int|
                0 <= i < k && #[trigger] last_with_its_key(p, k, i) ==> dict_get(st.map, key_text(p[i].0)->0)
                    == Some(st.vals[i])
            &&& rendered_keys_distinct(p, k) ==> st.map.len() == k
        }),
    decreases k,
{
    if k == 0 {
        assert(p.take(0) =~= Seq::<(LuaValue, LuaValue)>::empty());
    } else {
        lemma_fold_next(p, k - 1);
        let prev = fold_pairs(p.take(k - 1));
        assert(prev is Ok);
        lemma_fold_facts(p, k - 1);
        let st0 = prev->Ok_0;
        let v = value_to_typst(p[k - 1].1)->Ok_0;
        let s = key_text(p[k - 1].0)->0;
        let st = fold_pairs(p.take(k))->Ok_0;
        assert(key_text(p[k - 1].0) is Some);
        assert(st.map == dict_insert(st0.map, s, v));
        assert(st.vals == st0.vals.push(v));
        law_insert_then_get(st0.map, s, v, s);
        assert forall|i: int| 0 <= i < k implies value_to_typst(p[i].1) == Ok::<TypstV, LuaErrorV>(
            #[trigger] st.vals[i],
        ) by {
            if i < k - 1 {
                assert(st.vals[i] == st0.vals[i]);
            }
        }
        assert forall|i: int| 0 <= i < k implies has_key(st.map, (#[trigger] key_text(p[i].0))->0) by {
            let si = key_text(p[i].0)->0;
            law_insert_then_get(st0.map, s, v, si);
        }
        assert forall|x: Seq<char>| #[trigger] has_key(st.map, x) implies exists|i: int|
            0 <= i < k && key_text(p[i].0) == Some(x) by {
            law_insert_then_get(st0.map, s, v, x);
            if x == s {
                assert(key_text(p[k - 1].0) == Some(x));
            } else {
                assert(has_key(st0.map, x));
                let i = choose|i: int| 0 <= i < k - 1 && key_text(p[i].0) == Some(x);
                assert(0 <= i < k && key_text(p[i].0) == Some(x));
            }
        }
        assert forall|i: int|
            0 <= i < k && #[trigger] last_with_its_key(p, k, i) implies dict_get(st.map, key_text(p[i].0)->0)
                == Some(st.vals[i]) by {
            let si = key_text(p[i].0)->0;
            law_insert_then_get(st0.map, s, v, si);
            if i < k - 1 {
                assert(key_text(p[k - 1].0) != key_text(p[i].0));
                assert(last_with_its_key(p, k - 1, i));
                assert(st.vals[i] == st0.vals[i]);
            }
        }
        if rendered_keys_distinct(p, k) {
            assert(rendered_keys_distinct(p, k - 1));
            if has_key(st0.map, s) {
                let i = choose|i: int| 0 <= i < k - 1 && key_text(p[i].0) == Some(s);
                assert(key_text(p[i].0) != key_text(p[k - 1].0));
            }
        }
    }
}

/// An accepted table converts, and becomes an array exactly when its keys
/// are exactly 1, 2, ..., n, in whatever order Lua walks them; the array then
/// has n elements, and the element at position k - 1 is the converted value
/// of the pair whose key is k.
pub proof fn law_array_exactly_for_dense_keys(t: LuaTable)
    requires
        table_supported(t),
    ensures
        table_to_typst(t) is Ok,
        (table_to_typst(t)->Ok_0 is Array) <==> dense_indices(key_indices(t.pairs@)),
        table_to_typst(t)->Ok_0 matches TypstV::Array(a) ==> {
            &&& a.len() == t.pairs@.len()
            &&& forall|i: int|
                0 <= i < t.pairs@.len() ==> match key_as_index(#[trigger] t.pairs@[i].0) {
                    Some(k) => value_to_typst(t.pairs@[i].1) == Ok::<TypstV, LuaErrorV>(a[k - 1]),
                    None => false,
                }
        },
{
    lemma_table_converts(t);
    let p = t.pairs@;
    let ix = key_indices(p);
    assert(p.take(p.len() as int) =~= p);
    lemma_fold_facts(p, p.len() as int);
    if dense_indices(ix) {
        let st = fold_pairs(p)->Ok_0;
        let a = in_index_order(ix, st.vals);
        assert forall|i: int| 0 <= i < p.len() implies match key_as_index(#[trigger] p[i].0) {
            Some(k) => value_to_typst(p[i].1) == Ok::<TypstV, LuaErrorV>(a[k - 1]),
            None => false,
        } by {
            assert(ix[i] == key_as_index(p[i].0));
            let k = ix[i]->0;
            assert(1 <= k <= p.len());
            assert(index_occurs(ix, k as int));
            let q = position_of(ix, k as int);
            assert(ix[q] == ix[i]);
            assert(q == i);
            assert(a[k - 1] == st.vals[q]);
        }
    }
}

/// An accepted table hands a dictionary to a document, which is also what
/// it becomes when it is not an array: no key occurs twice; every pair's key
/// occurs rendered as a string, and nothing else does; a key holds the
/// converted value of the last pair whose key renders to it; and when no two
/// keys render alike, it has one entry per pair.
pub proof fn law_dictionary_contents(t: LuaTable)
    requires
        table_supported(t),
    ensures
        table_to_inputs(t) is Ok,
        ({
            let p = t.pairs@;
            let m = table_to_inputs(t)->Ok_0;
            &&& table_to_typst(t) matches Ok(TypstV::Dict(d)) ==> d == m
            &&& keys_distinct(m)
            &&& forall|i: int| 0 <= i < p.len() ==> ((#[trigger] key_text(p[i].0)) matches Some(s) && has_key(m, s))
            &&& forall|s: Seq<char>|
                #[trigger] has_key(m, s) ==> exists|i: int| 0 <= i < p.len() && key_text(p[i].0) == Some(s)
            &&& forall|i: int|
                0 <= i < p.len() && #[trigger] last_with_its_key(p, p.len() as int, i) ==> dict_get(
                    m,
                    key_text(p[i].0)->0,
                ) == Some(value_to_typst(p[i].1)->Ok_0)
            &&& rendered_keys_distinct(p, p.len() as int) ==> m.len() == p.len()
        }),
{
    lemma_table_converts(t);
    let p = t.pairs@;
    assert(p.take(p.len() as int) =~= p);
    lemma_fold_facts(p, p.len() as int);
    let st = fold_pairs(p)->Ok_0;
    assert forall|i: int| 0 <= i < p.len() implies ((#[trigger] key_text(p[i].0)) matches Some(s) && has_key(
        st.map,
        s,
    )) by {
        assert(key_text(p[i].0) is Some);
        assert(has_key(st.map, key_text(p[i].0)->0));
    }
    assert forall|i: int|
        0 <= i < p.len() && #[trigger] last_with_its_key(p, p.len() as int, i) implies dict_get(
            st.map,
            key_text(p[i].0)->0,
        ) == Some(value_to_typst(p[i].1)->Ok_0) by {
        assert(value_to_typst(p[i].1) == Ok::<TypstV, LuaErrorV>(st.vals[i]));
    }
}

/// The data handed to a document is always a dictionary: a table that
/// becomes a dictionary hands over that dictionary, and a table that becomes
/// an array of n elements hands over a dictionary of n entries that maps
/// "1", "2", ..., "n" to its elements. Either fails exactly when the other
/// does, with the same error.
pub proof fn law_inputs_are_a_dictionary(t: LuaTable)
    ensures
        table_to_typst(t) matches Err(e) ==> table_to_inputs(t) == Err::<Seq<(Seq<char>, TypstV)>, LuaErrorV>(e),
        table_to_typst(t) matches Ok(TypstV::Dict(m)) ==> table_to_inputs(t) == Ok::<Seq<(Seq<char>, TypstV)>, LuaErrorV>(m),
        table_to_typst(t) matches Ok(TypstV::Array(a)) ==> {
            &&& table_to_inputs(t) matches Ok(m)
            &&& m.len() == a.len()
            &&& forall|j: int| 0 <= j < a.len() ==> dict_get(m, #[trigger] decimal(j + 1)) == Some(a[j])
        },
{
    let p = t.pairs@;
    let ix = key_indices(p);
    if table_to_typst(t) is Ok && table_to_typst(t)->Ok_0 is Array {
        let a = table_to_typst(t)->Ok_0->Array_0;
        assert(p.take(p.len() as int) =~= p);
        lemma_fold_facts(p, p.len() as int);
        lemma_table_converts(t);
        law_array_exactly_for_dense_keys(t);
        let st = fold_pairs(p)->Ok_0;
        assert forall|i: int, j: int| 0 <= i < j < p.len() implies key_text(#[trigger] p[i].0) != key_text(
            #[trigger] p[j].0,
        ) by {
            assert(ix[i] == key_as_index(p[i].0));
            assert(ix[j] == key_as_index(p[j].0));
            assert(ix[i] != ix[j]);
            let ki = ix[i]->0;
            let kj = ix[j]->0;
            if key_text(p[i].0) == key_text(p[j].0) {
                assert(decimal(ki as int) == decimal(kj as int));
                lemma_nat_digits_injective(ki as nat, kj as nat);
            }
        }
        assert forall|j: int| 0 <= j < a.len() implies dict_get(st.map, #[trigger] decimal(j + 1)) == Some(a[j]) by {
            assert(index_occurs(ix, j + 1));
            let i = position_of(ix, j + 1);
            assert(ix[i] == key_as_index(p[i].0));
            assert(key_text(p[i].0) == Some(decimal(j + 1)));
            assert(last_with_its_key(p, p.len() as int, i));
        }
    }
}

/// An empty table becomes an empty array.
pub proof fn law_empty_table_is_empty_array(t: LuaTable)
    requires
        t.pairs@.len() == 0,
    ensures
        table_to_typst(t) == Ok::<TypstV, LuaErrorV>(TypstV::Array(Seq::empty())),
{
    let ix = key_indices(t.pairs@);
    assert(in_index_order(ix, Seq::<TypstV>::empty()) =~= Seq::<TypstV>::empty());
}

/// Indices that are 1, 2, ..., n in their own order are dense, and ordering
/// values by them leaves the values as they are.
pub(crate) proof fn lemma_sequential_is_dense(ix: Seq<Option<i64>>, vs: Seq<TypstV>)
    requires
        ix.len() == vs.len(),
        forall|i: int| 0 <= i < ix.len() ==> names_index(#[trigger] ix[i], i + 1),
    ensures
        dense_indices(ix),
        in_index_order(ix, vs) == vs,
{
    assert forall|k: int| 1 <= k <= ix.len() implies #[trigger] index_occurs(ix, k) by {
        assert(names_index(ix[k - 1], k));
    }
    assert forall|j: int| 0 <= j < ix.len() implies in_index_order(ix, vs)[j] == vs[j] by {
        assert(index_occurs(ix, j + 1));
        let q = position_of(ix, j + 1);
        assert(names_index(ix[q], q + 1));
    }
    assert(in_index_order(ix, vs) =~= vs);
}

} // verus!
