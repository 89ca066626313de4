//! Documents: the semi-structured values the store persists, their
//! mathematical model, and document identifiers.

use crate::text;
use vstd::prelude::*;
use vstd::string::*;

verus! {

/// One more than the largest document identifier: identifiers are 96-bit
/// values, rendered as 24 hexadecimal digits.
pub const OID_LIMIT: u128 = 0x1000000000000000000000000;

/// An opaque document identifier, assigned by the store on first insert.
#[derive(Clone, Copy, Debug, PartialEq, Eq, Structural)]
pub struct Oid {
    pub value: u128,
}

impl Oid {
    /// Identifiers fit in 96 bits, so that they round-trip through their
    /// 24-digit hexadecimal rendering.
    pub open spec fn valid(self) -> bool {
        self.value < OID_LIMIT
    }

    /// The identifier as a number.
    pub open spec fn model(self) -> nat {
        self.value as nat
    }

    /// Reads an identifier from its textual form; exactly 24 hexadecimal
    /// digits are accepted.
    pub fn parse_str(s: &str) -> (r: Result<Oid, crate::Erro>)
        ensures
            match r {
                Ok(o) => text::hex24_ok(s@) && o.valid() && o.model() == text::hex24_val(s@),
                Err(e) => e == crate::Erro::InvalidArgument && !text::hex24_ok(s@),
            },
    {
        match text::parse_hex24(s) {
            Some(v) => Ok(Oid { value: v }),
            None => Err(crate::Erro::InvalidArgument),
        }
    }

    /// The 24-digit lowercase hexadecimal form of the identifier.
    pub fn to_hex(&self) -> (r: String)
        requires
            self.valid(),
        ensures
            text::hex24_ok(r@),
            text::hex24_val(r@) == self.model(),
    {
        text::hex24_of(self.value)
    }
}

/// A stored value: the generic semi-structured encoding the store persists.
/// Documents are `Obj` values; they nest objects, arrays and scalars.
#[derive(Debug, PartialEq)]
pub enum Value {
    Null,
    Bool(bool),
    Int(i64),
    Id(Oid),
    Str(String),
    Arr(Vec<Value>),
    Obj(Vec<(String, Value)>),
}

/// The mathematical model of a stored value.
#[verifier::ext_equal]
pub ghost enum Vm {
    Null,
    Bool(bool),
    Int(int),
    Id(nat),
    Str(Seq<char>),
    Arr(Seq<Vm>),
    Obj(Seq<(Seq<char>, Vm)>),
}

/// The model of a value.
pub open spec fn vm(v: Value) -> Vm
    decreases v,
{
    match v {
        Value::Null => Vm::Null,
        Value::Bool(b) => Vm::Bool(b),
        Value::Int(i) => Vm::Int(i as int),
        Value::Id(o) => Vm::Id(o.value as nat),
        Value::Str(s) => Vm::Str(s@),
        Value::Arr(a) => Vm::Arr(vm_seq(a@)),
        Value::Obj(fs) => Vm::Obj(vm_fields(fs@)),
    }
}

/// The models of the elements of an array.
pub open spec fn vm_seq(s: Seq<Value>) -> Seq<Vm>
    decreases s,
{
    if s.len() == 0 {
        Seq::empty()
    } else {
        seq![vm(s[0])] + vm_seq(s.subrange(1, s.len() as int))
    }
}

/// The models of the fields of an object.
pub open spec fn vm_fields(s: Seq<(String, Value)>) -> Seq<(Seq<char>, Vm)>
    decreases s,
{
    if s.len() == 0 {
        Seq::empty()
    } else {
        seq![(s[0].0@, vm(s[0].1))] + vm_fields(s.subrange(1, s.len() as int))
    }
}

/// An array's model is the elementwise model.
pub broadcast proof fn lemma_vm_seq(s: Seq<Value>)
    ensures
        #[trigger] vm_seq(s).len() == s.len(),
        forall|i: int| 0 <= i < s.len() ==> #[trigger] vm_seq(s)[i] == vm(s[i]),
    decreases s.len(),
{
    if s.len() > 0 {
        lemma_vm_seq(s.subrange(1, s.len() as int));
    }
}

/// An object's model is the fieldwise model.
pub broadcast proof fn lemma_vm_fields(s: Seq<(String, Value)>)
    ensures
        #[trigger] vm_fields(s).len() == s.len(),
        forall|i: int| 0 <= i < s.len()
            ==> #[trigger] vm_fields(s)[i] == (s[i].0@, vm(s[i].1)),
    decreases s.len(),
{
    if s.len() > 0 {
        lemma_vm_fields(s.subrange(1, s.len() as int));
    }
}

impl View for Value {
    type V = Vm;

    open spec fn view(&self) -> Vm {
        vm(*self)
    }
}

/// The value of field `key`, looked up from position `i` on: the first
/// occurrence wins.
pub open spec fn obj_get_from(fs: Seq<(Seq<char>, Vm)>, key: Seq<char>, i: int) -> Option<Vm>
    decreases fs.len() - i,
{
    if i < 0 || i >= fs.len() {
        None
    } else if fs[i].0 == key {
        Some(fs[i].1)
    } else {
        obj_get_from(fs, key, i + 1)
    }
}

/// The value of field `key` of a document, if the value is a document and
/// has the field.
pub open spec fn get_m(d: Vm, key: Seq<char>) -> Option<Vm> {
    match d {
        Vm::Obj(fs) => obj_get_from(fs, key, 0),
        _ => None,
    }
}

/// The position of the first occurrence of `key` at or after `i`, or the
/// field count when there is none.
pub open spec fn key_index_from(fs: Seq<(Seq<char>, Vm)>, key: Seq<char>, i: int) -> int
    decreases fs.len() - i,
{
    if i < 0 || i >= fs.len() {
        fs.len() as int
    } else if fs[i].0 == key {
        i
    } else {
        key_index_from(fs, key, i + 1)
    }
}

/// The first occurrence of a key lies between the start of the search and
/// the end of the fields.
pub proof fn lemma_key_index_bounds(fs: Seq<(Seq<char>, Vm)>, key: Seq<char>, i: int)
    requires
        0 <= i <= fs.len(),
    ensures
        i <= key_index_from(fs, key, i) <= fs.len(),
        key_index_from(fs, key, i) < fs.len() ==> fs[key_index_from(fs, key, i)].0 == key,
    decreases fs.len() - i,
{
    if i < fs.len() && fs[i].0 != key {
        lemma_key_index_bounds(fs, key, i + 1);
    }
}

/// A lookup finds exactly the value at the first occurrence of the key.
pub proof fn lemma_get_key_index(fs: Seq<(Seq<char>, Vm)>, key: Seq<char>, i: int)
    requires
        0 <= i <= fs.len(),
    ensures
        obj_get_from(fs, key, i) == (if key_index_from(fs, key, i) < fs.len() {
            Some(fs[key_index_from(fs, key, i)].1)
        } else {
            None::<Vm>
        }),
    decreases fs.len() - i,
{
    lemma_key_index_bounds(fs, key, i);
    if i < fs.len() && fs[i].0 != key {
        lemma_get_key_index(fs, key, i + 1);
    }
}

/// The fields with field `key` set to `v`: the first occurrence is replaced
/// in place, otherwise the field is appended.
pub open spec fn obj_set_m(fs: Seq<(Seq<char>, Vm)>, key: Seq<char>, v: Vm) -> Seq<
    (Seq<char>, Vm),
> {
    let ki = key_index_from(fs, key, 0);
    if ki < fs.len() {
        fs.update(ki, (key, v))
    } else {
        fs.push((key, v))
    }
}

/// A document with field `key` set to `v`; other values are unchanged.
pub open spec fn set_m(d: Vm, key: Seq<char>, v: Vm) -> Vm {
    match d {
        Vm::Obj(fs) => Vm::Obj(obj_set_m(fs, key, v)),
        _ => d,
    }
}

/// The fields from position `i` on, with every occurrence of `key` removed.
pub open spec fn obj_remove_from(fs: Seq<(Seq<char>, Vm)>, key: Seq<char>, i: int) -> Seq<
    (Seq<char>, Vm),
>
    decreases fs.len() - i,
{
    if i < 0 || i >= fs.len() {
        Seq::empty()
    } else if fs[i].0 == key {
        obj_remove_from(fs, key, i + 1)
    } else {
        seq![fs[i]] + obj_remove_from(fs, key, i + 1)
    }
}

/// A document without its identifier field; other values are unchanged.
pub open spec fn strip_id_m(d: Vm) -> Vm {
    match d {
        Vm::Obj(fs) => Vm::Obj(obj_remove_from(fs, "_id"@, 0)),
        _ => d,
    }
}

/// A document with the identifier field `n` put first; other values are
/// unchanged.
pub open spec fn with_id_m(d: Vm, n: nat) -> Vm {
    match d {
        Vm::Obj(fs) => Vm::Obj(seq![("_id"@, Vm::Id(n))] + fs),
        _ => d,
    }
}

/// The identifier of a document, when it has one.
pub open spec fn doc_id_m(d: Vm) -> Option<nat> {
    match get_m(d, "_id"@) {
        Some(Vm::Id(n)) => Some(n),
        _ => None,
    }
}

/// A document given an identifier carries exactly that identifier.
pub proof fn lemma_with_id_id(d: Vm, n: nat)
    requires
        d is Obj,
    ensures
        with_id_m(d, n) is Obj,
        doc_id_m(with_id_m(d, n)) == Some(n),
{
    let fs = seq![("_id"@, Vm::Id(n))] + d->Obj_0;
    assert(fs[0] == ("_id"@, Vm::Id(n)));
    assert(obj_get_from(fs, "_id"@, 0) == Some(Vm::Id(n)));
}

/// Setting a field other than the identifier keeps the identifier, and
/// setting any field keeps the document a document.
pub proof fn lemma_set_keeps_id(d: Vm, key: Seq<char>, v: Vm)
    requires
        key != "_id"@,
    ensures
        set_m(d, key, v) is Obj == d is Obj,
        doc_id_m(set_m(d, key, v)) == doc_id_m(d),
{
    if d is Obj {
        let fs = d->Obj_0;
        let ki = key_index_from(fs, key, 0);
        lemma_key_index_bounds(fs, key, 0);
        if ki < fs.len() {
            lemma_get_other_update(fs, ki, (key, v), "_id"@, 0);
        } else {
            lemma_get_other_push(fs, (key, v), "_id"@, 0);
        }
    }
}

/// Updating one field to a pair with a different name leaves lookups of the
/// other name unchanged.
proof fn lemma_get_other_update(
    fs: Seq<(Seq<char>, Vm)>,
    at: int,
    pair: (Seq<char>, Vm),
    key: Seq<char>,
    i: int,
)
    requires
        0 <= at < fs.len(),
        pair.0 != key,
        fs[at].0 != key,
        0 <= i,
    ensures
        obj_get_from(fs.update(at, pair), key, i) == obj_get_from(fs, key, i),
    decreases fs.len() - i,
{
    if i < fs.len() {
        lemma_get_other_update(fs, at, pair, key, i + 1);
    }
}

/// Appending a field with a different name leaves lookups of the other name
/// unchanged.
proof fn lemma_get_other_push(
    fs: Seq<(Seq<char>, Vm)>,
    pair: (Seq<char>, Vm),
    key: Seq<char>,
    i: int,
)
    requires
        pair.0 != key,
        0 <= i,
    ensures
        obj_get_from(fs.push(pair), key, i) == obj_get_from(fs, key, i),
    decreases fs.len() + 1 - i,
{
    if i < fs.len() + 1 {
        lemma_get_other_push(fs, pair, key, i + 1);
    }
}

/// Setting a field stores exactly that value at that field.
pub proof fn lemma_get_set_same(d: Vm, key: Seq<char>, v: Vm)
    requires
        d is Obj,
    ensures
        get_m(set_m(d, key, v), key) == Some(v),
{
    let fs = d->Obj_0;
    let ki = key_index_from(fs, key, 0);
    lemma_key_index_bounds(fs, key, 0);
    if ki < fs.len() {
        lemma_key_index_first(fs, key, 0);
        lemma_get_at_first(fs.update(ki, (key, v)), key, 0, ki);
    } else {
        lemma_key_index_none(fs, key, 0);
        lemma_get_at_first(fs.push((key, v)), key, 0, fs.len() as int);
    }
}

/// Before the first occurrence of a key nothing bears that key.
proof fn lemma_key_index_first(fs: Seq<(Seq<char>, Vm)>, key: Seq<char>, i: int)
    requires
        0 <= i,
    ensures
        forall|q: int| i <= q < key_index_from(fs, key, i) ==> (#[trigger] fs[q]).0 != key,
    decreases fs.len() - i,
{
    if i < fs.len() && fs[i].0 != key {
        lemma_key_index_first(fs, key, i + 1);
    }
}

/// When a key is absent, no field bears it.
proof fn lemma_key_index_none(fs: Seq<(Seq<char>, Vm)>, key: Seq<char>, i: int)
    requires
        0 <= i,
        key_index_from(fs, key, i) == fs.len(),
    ensures
        forall|q: int| i <= q < fs.len() ==> (#[trigger] fs[q]).0 != key,
    decreases fs.len() - i,
{
    if i < fs.len() {
        lemma_key_index_bounds(fs, key, i + 1);
        lemma_key_index_none(fs, key, i + 1);
    }
}

/// A lookup returns the value at the first position that bears the key.
pub proof fn lemma_get_at_first(fs: Seq<(Seq<char>, Vm)>, key: Seq<char>, i: int, at: int)
    requires
        0 <= i <= at < fs.len(),
        fs[at].0 == key,
        forall|q: int| i <= q < at ==> (#[trigger] fs[q]).0 != key,
    ensures
        obj_get_from(fs, key, i) == Some(fs[at].1),
    decreases fs.len() - i,
{
    if i < at {
        lemma_get_at_first(fs, key, i + 1, at);
    }
}

/// Every field that survives a removal bears another key.
proof fn lemma_remove_keeps_no_key(fs: Seq<(Seq<char>, Vm)>, key: Seq<char>, i: int)
    requires
        0 <= i,
    ensures
        forall|q: int|
            0 <= q < obj_remove_from(fs, key, i).len() ==> (#[trigger] obj_remove_from(
                fs,
                key,
                i,
            )[q]).0 != key,
    decreases fs.len() - i,
{
    if i < fs.len() {
        lemma_remove_keeps_no_key(fs, key, i + 1);
        if fs[i].0 != key {
            assert forall|q: int| 0 <= q < obj_remove_from(fs, key, i).len()
                implies (#[trigger] obj_remove_from(fs, key, i)[q]).0 != key by {
                if q == 0 {
                    assert(obj_remove_from(fs, key, i)[q] == fs[i]);
                } else {
                    assert(obj_remove_from(fs, key, i)[q] == obj_remove_from(
                        fs,
                        key,
                        i + 1,
                    )[q - 1]);
                }
            }
        } else {
            assert forall|q: int| 0 <= q < obj_remove_from(fs, key, i).len()
                implies (#[trigger] obj_remove_from(fs, key, i)[q]).0 != key by {
                assert(obj_remove_from(fs, key, i)[q] == obj_remove_from(fs, key, i + 1)[q]);
            }
        }
    }
}

/// A lookup among fields that all bear other keys finds nothing.
pub proof fn lemma_get_none_when_no_key(fs: Seq<(Seq<char>, Vm)>, key: Seq<char>, i: int)
    requires
        0 <= i,
        forall|q: int| 0 <= q < fs.len() ==> (#[trigger] fs[q]).0 != key,
    ensures
        obj_get_from(fs, key, i) is None,
    decreases fs.len() - i,
{
    if i < fs.len() {
        lemma_get_none_when_no_key(fs, key, i + 1);
    }
}

/// Removing a key that no field bears leaves the fields unchanged.
pub proof fn lemma_remove_absent(fs: Seq<(Seq<char>, Vm)>, key: Seq<char>, i: int)
    requires
        0 <= i <= fs.len(),
        forall|q: int| 0 <= q < fs.len() ==> (#[trigger] fs[q]).0 != key,
    ensures
        obj_remove_from(fs, key, i) == fs.subrange(i, fs.len() as int),
    decreases fs.len() - i,
{
    if i < fs.len() {
        lemma_remove_absent(fs, key, i + 1);
        assert(obj_remove_from(fs, key, i) =~= fs.subrange(i, fs.len() as int));
    } else {
        assert(obj_remove_from(fs, key, i) =~= fs.subrange(i, fs.len() as int));
    }
}

/// A document without its identifier field has no identifier.
pub proof fn lemma_strip_no_id(d: Vm)
    requires
        d is Obj,
    ensures
        strip_id_m(d) is Obj,
        doc_id_m(strip_id_m(d)) is None,
{
    let fs = d->Obj_0;
    lemma_remove_keeps_no_key(fs, "_id"@, 0);
    lemma_get_none_when_no_key(obj_remove_from(fs, "_id"@, 0), "_id"@, 0);
}

/// Whether field `i` of `fs` is named `key`.
fn key_at(fs: &Vec<(String, Value)>, i: usize, key: &str) -> (r: bool)
    requires
        i < fs@.len(),
    ensures
        r == (fs@[i as int].0@ == key@),
{
    text::str_eq(fs[i].0.as_str(), key)
}

impl Value {
    /// The value of field `key`, when this value is a document that has it.
    pub fn get_field<'a>(&'a self, key: &str) -> (r: Option<&'a Value>)
        ensures
            match r {
                Some(v) => get_m(self@, key@) == Some(v@),
                None => get_m(self@, key@) is None,
            },
    {
        match self {
            Value::Obj(fs) => {
                proof {
                    lemma_vm_fields(fs@);
                }
                let n = fs.len();
                let mut i: usize = 0;
                while i < n
                    invariant
                        n == fs@.len(),
                        0 <= i <= n,
                        vm(*self) == Vm::Obj(vm_fields(fs@)),
                        vm_fields(fs@).len() == n,
                        forall|j: int| 0 <= j < fs@.len()
                            ==> vm_fields(fs@)[j] == (fs@[j].0@, vm(fs@[j].1)),
                        obj_get_from(vm_fields(fs@), key@, 0)
                            == obj_get_from(vm_fields(fs@), key@, i as int),
                    decreases n - i,
                {
                    if text::str_eq(fs[i].0.as_str(), key) {
                        return Some(&fs[i].1);
                    }
                    i = i + 1;
                }
                None
            },
            _ => None,
        }
    }

    /// This value with field `key` set to `v`, when it is a document.
    pub fn set_field(self, key: &str, v: Value) -> (r: Value)
        ensures
            r@ == set_m(self@, key@, v@),
    {
        match self {
            Value::Obj(mut fs) => {
                let ghost f0 = fs@;
                let ghost fm = vm_fields(fs@);
                let ghost w = vm(v);
                proof {
                    lemma_vm_fields(fs@);
                }
                let n = fs.len();
                let mut i: usize = 0;
                proof {
                    lemma_key_index_bounds(fm, key@, 0);
                }
                while i < n && !key_at(&fs, i, key)
                    invariant
                        n == fs@.len(),
                        0 <= i <= n,
                        fs@ == f0,
                        fm == vm_fields(f0),
                        fm.len() == n,
                        forall|j: int| 0 <= j < n ==> fm[j] == (#[trigger] f0[j].0@, vm(f0[j].1)),
                        key_index_from(fm, key@, 0) == key_index_from(fm, key@, i as int),
                        key_index_from(fm, key@, i as int) >= i,
                    decreases n - i,
                {
                    proof {
                        lemma_key_index_bounds(fm, key@, i as int + 1);
                    }
                    i = i + 1;
                }
                let ks = String::from_str(key);
                if i < n {
                    proof {
                        assert(fm[i as int].0 == f0[i as int].0@);
                        assert(key_index_from(fm, key@, i as int) == i);
                    }
                    fs.set(i, (ks, v));
                    proof {
                        lemma_vm_fields(fs@);
                        assert forall|j: int| 0 <= j < n
                            implies vm_fields(fs@)[j] == fm.update(i as int, (key@, w))[j] by {
                            assert(vm_fields(fs@)[j] == (fs@[j].0@, vm(fs@[j].1)));
                            if j == i as int {
                                assert(fs@[j].0@ == key@);
                                assert(vm(fs@[j].1) == w);
                            } else {
                                assert(fs@[j] == f0[j]);
                                assert(fm[j] == (f0[j].0@, vm(f0[j].1)));
                            }
                        }
                        assert(vm_fields(fs@) =~= fm.update(i as int, (key@, w)));
                    }
                    Value::Obj(fs)
                } else {
                    proof {
                        assert(key_index_from(fm, key@, 0) == n);
                    }
                    fs.push((ks, v));
                    proof {
                        lemma_vm_fields(fs@);
                        assert forall|j: int| 0 <= j < n + 1
                            implies vm_fields(fs@)[j] == fm.push((key@, w))[j] by {
                            assert(vm_fields(fs@)[j] == (fs@[j].0@, vm(fs@[j].1)));
                            if j == n as int {
                                assert(fs@[j].0@ == key@);
                                assert(vm(fs@[j].1) == w);
                            } else {
                                assert(fs@[j] == f0[j]);
                                assert(fm[j] == (f0[j].0@, vm(f0[j].1)));
                            }
                        }
                        assert(vm_fields(fs@) =~= fm.push((key@, w)));
                    }
                    Value::Obj(fs)
                }
            },
            other => {
                proof {
                    assert(set_m(other@, key@, v@) == other@);
                }
                other
            },
        }
    }

    /// This value without its identifier field, when it is a document.
    pub fn strip_id(self) -> (r: Value)
        ensures
            r@ == strip_id_m(self@),
    {
        match self {
            Value::Obj(fs) => {
                let ghost fm = vm_fields(fs@);
                proof {
                    lemma_vm_fields(fs@);
                }
                let n = fs.len();
                let mut out: Vec<(String, Value)> = Vec::new();
                let mut i: usize = 0;
                proof {
                    assert(vm_fields(out@) + obj_remove_from(fm, "_id"@, 0)
                        =~= obj_remove_from(fm, "_id"@, 0));
                }
                while i < n
                    invariant
                        n == fs@.len(),
                        0 <= i <= n,
                        fm == vm_fields(fs@),
                        fm.len() == n,
                        forall|j: int| 0 <= j < n
                            ==> fm[j] == (#[trigger] fs@[j].0@, vm(fs@[j].1)),
                        obj_remove_from(fm, "_id"@, 0)
                            == vm_fields(out@) + obj_remove_from(fm, "_id"@, i as int),
                    decreases n - i,
                {
                    let ghost outm = vm_fields(out@);
                    let ghost o0 = out@;
                    let matches_key = {
                        proof {
                            reveal_strlit("_id");
                        }
                        text::str_eq(fs[i].0.as_str(), "_id")
                    };
                    if !matches_key {
                        let pair = fs[i].1.deep_copy();
                        let ks = fs[i].0.clone();
                        out.push((ks, pair));
                        proof {
                            assert(out@.subrange(0, out@.len() - 1) =~= o0);
                            lemma_vm_fields_push(out@, outm);
                            assert(vm_fields(out@) =~= outm + seq![fm[i as int]]);
                            assert(outm + obj_remove_from(fm, "_id"@, i as int)
                                =~= vm_fields(out@) + obj_remove_from(fm, "_id"@, i as int + 1));
                        }
                    }
                    i = i + 1;
                }
                proof {
                    assert(vm_fields(out@) + obj_remove_from(fm, "_id"@, n as int)
                        =~= vm_fields(out@));
                }
                Value::Obj(out)
            },
            other => other,
        }
    }

    /// This value with identifier field `id` put first, when it is a
    /// document.
    pub fn with_id(self, id: Oid) -> (r: Value)
        ensures
            r@ == with_id_m(self@, id.model()),
    {
        match self {
            Value::Obj(mut fs) => {
                let ghost f0 = fs@;
                let ghost fm = vm_fields(fs@);
                let ks = String::from_str("_id");
                fs.insert(0, (ks, Value::Id(id)));
                proof {
                    lemma_vm_fields(fs@);
                    lemma_vm_fields(f0);
                    assert(vm_fields(fs@) =~= seq![("_id"@, Vm::Id(id.model()))] + fm);
                }
                Value::Obj(fs)
            },
            other => other,
        }
    }

    /// Whether this value is a document.
    pub fn is_obj(&self) -> (r: bool)
        ensures
            r == (self@ is Obj),
    {
        match self {
            Value::Obj(_) => true,
            _ => false,
        }
    }

    /// The identifier of this document, when it has one.
    pub fn doc_id(&self) -> (r: Option<Oid>)
        ensures
            match r {
                Some(o) => doc_id_m(self@) == Some(o.model()),
                None => doc_id_m(self@) is None,
            },
    {
        let f = {
            proof {
                reveal_strlit("_id");
            }
            self.get_field("_id")
        };
        match f {
            Some(Value::Id(o)) => Some(*o),
            _ => None,
        }
    }

    /// A copy of this value with the same model.
    pub fn deep_copy(&self) -> (r: Value)
        ensures
            r@ == self@,
        decreases self,
    {
        match self {
            Value::Null => Value::Null,
            Value::Bool(b) => Value::Bool(*b),
            Value::Int(i) => Value::Int(*i),
            Value::Id(o) => Value::Id(*o),
            Value::Str(s) => Value::Str(s.clone()),
            Value::Arr(a) => Value::Arr(deep_copy_vec(a)),
            Value::Obj(fs) => Value::Obj(deep_copy_fields(fs)),
        }
    }
}

/// Decides model equality of two values.
pub fn value_eq(a: &Value, b: &Value) -> (r: bool)
    ensures
        r == (a@ == b@),
    decreases a,
{
    match (a, b) {
        (Value::Null, Value::Null) => true,
        (Value::Bool(x), Value::Bool(y)) => x == y,
        (Value::Int(x), Value::Int(y)) => x == y,
        (Value::Id(x), Value::Id(y)) => x.value == y.value,
        (Value::Str(x), Value::Str(y)) => text::string_eq(x, y),
        (Value::Arr(x), Value::Arr(y)) => value_eq_vec(x, y),
        (Value::Obj(x), Value::Obj(y)) => value_eq_fields(x, y),
        _ => {
            proof {
                assert(a@ != b@);
            }
            false
        },
    }
}

/// Decides model equality of two arrays, element by element.
fn value_eq_vec(x: &Vec<Value>, y: &Vec<Value>) -> (r: bool)
    ensures
        r == (vm_seq(x@) == vm_seq(y@)),
    decreases x@,
{
    proof {
        lemma_vm_seq(x@);
        lemma_vm_seq(y@);
    }
    let n = x.len();
    if n != y.len() {
        return false;
    }
    let mut i: usize = 0;
    while i < n
        invariant
            n == x@.len(),
            n == y@.len(),
            0 <= i <= n,
            vm_seq(x@).len() == n,
            vm_seq(y@).len() == n,
            forall|j: int| 0 <= j < n ==> #[trigger] vm_seq(x@)[j] == vm(x@[j]),
            forall|j: int| 0 <= j < n ==> #[trigger] vm_seq(y@)[j] == vm(y@[j]),
            forall|j: int| 0 <= j < i ==> vm(#[trigger] x@[j]) == vm(y@[j]),
        decreases n - i,
    {
        if !value_eq(&x[i], &y[i]) {
            proof {
                assert(vm_seq(x@)[i as int] != vm_seq(y@)[i as int]);
            }
            return false;
        }
        proof {
            assert(vm(x@[i as int]) == vm(y@[i as int]));
        }
        i = i + 1;
    }
    proof {
        assert(vm_seq(x@) =~= vm_seq(y@));
    }
    true
}

/// Decides model equality of two field lists, field by field.
fn value_eq_fields(x: &Vec<(String, Value)>, y: &Vec<(String, Value)>) -> (r: bool)
    ensures
        r == (vm_fields(x@) == vm_fields(y@)),
    decreases x@,
{
    proof {
        lemma_vm_fields(x@);
        lemma_vm_fields(y@);
    }
    let n = x.len();
    if n != y.len() {
        return false;
    }
    let mut i: usize = 0;
    while i < n
        invariant
            n == x@.len(),
            n == y@.len(),
            0 <= i <= n,
            vm_fields(x@).len() == n,
            vm_fields(y@).len() == n,
            forall|j: int| 0 <= j < n
                ==> #[trigger] vm_fields(x@)[j] == (x@[j].0@, vm(x@[j].1)),
            forall|j: int| 0 <= j < n
                ==> #[trigger] vm_fields(y@)[j] == (y@[j].0@, vm(y@[j].1)),
            forall|j: int| 0 <= j < i
                ==> x@[j].0@ == y@[j].0@ && vm(#[trigger] x@[j].1) == vm(y@[j].1),
        decreases n - i,
    {
        if !text::string_eq(&x[i].0, &y[i].0) {
            proof {
                assert(vm_fields(x@)[i as int].0 != vm_fields(y@)[i as int].0);
            }
            return false;
        }
        if !value_eq(&x[i].1, &y[i].1) {
            proof {
                assert(vm_fields(x@)[i as int].1 != vm_fields(y@)[i as int].1);
            }
            return false;
        }
        proof {
            assert(x@[i as int].0@ == y@[i as int].0@);
            assert(vm(x@[i as int].1) == vm(y@[i as int].1));
            assert forall|j: int| 0 <= j < i + 1
                implies x@[j].0@ == y@[j].0@ && vm(#[trigger] x@[j].1) == vm(y@[j].1) by {
                if j < i {
                    assert(x@[j].0@ == y@[j].0@ && vm(x@[j].1) == vm(y@[j].1));
                }
            }
        }
        i = i + 1;
    }
    proof {
        assert(vm_fields(x@) =~= vm_fields(y@));
    }
    true
}

/// Copies the elements of an array, keeping their models.
fn deep_copy_vec(a: &Vec<Value>) -> (r: Vec<Value>)
    ensures
        vm_seq(r@) == vm_seq(a@),
        r@.len() == a@.len(),
    decreases a@,
{
    let n = a.len();
    let mut out: Vec<Value> = Vec::new();
    let mut i: usize = 0;
    while i < n
        invariant
            n == a@.len(),
            0 <= i <= n,
            out@.len() == i,
            forall|j: int| 0 <= j < i ==> vm(#[trigger] out@[j]) == vm(a@[j]),
        decreases n - i,
    {
        let c = a[i].deep_copy();
        out.push(c);
        i = i + 1;
    }
    proof {
        lemma_vm_seq(out@);
        lemma_vm_seq(a@);
        assert(vm_seq(out@) =~= vm_seq(a@));
    }
    out
}

/// Copies the fields of an object, keeping their models.
fn deep_copy_fields(fs: &Vec<(String, Value)>) -> (r: Vec<(String, Value)>)
    ensures
        vm_fields(r@) == vm_fields(fs@),
        r@.len() == fs@.len(),
    decreases fs@,
{
    let n = fs.len();
    let mut out: Vec<(String, Value)> = Vec::new();
    let mut i: usize = 0;
    while i < n
        invariant
            n == fs@.len(),
            0 <= i <= n,
            out@.len() == i,
            forall|j: int| 0 <= j < i
                ==> #[trigger] out@[j].0@ == fs@[j].0@ && vm(out@[j].1) == vm(fs@[j].1),
        decreases n - i,
    {
        let ks = fs[i].0.clone();
        let c = fs[i].1.deep_copy();
        out.push((ks, c));
        i = i + 1;
    }
    proof {
        lemma_vm_fields(out@);
        lemma_vm_fields(fs@);
        assert(vm_fields(out@) =~= vm_fields(fs@));
    }
    out
}

/// Appending a field extends the fieldwise model.
pub proof fn lemma_vm_fields_push(s: Seq<(String, Value)>, prefix: Seq<(Seq<char>, Vm)>)
    requires
        s.len() > 0,
        prefix == vm_fields(s.subrange(0, s.len() - 1)),
    ensures
        vm_fields(s) =~= prefix + seq![(s[s.len() - 1].0@, vm(s[s.len() - 1].1))],
{
    lemma_vm_fields(s);
    lemma_vm_fields(s.subrange(0, s.len() - 1));
}

} // verus!
