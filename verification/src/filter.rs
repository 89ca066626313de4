//! Query filters: equality, substring and contains-all conditions on a
//! single dotted attribute path, the only filter shapes the store offers.

use crate::text;
use crate::value::{lemma_vm_fields, lemma_vm_seq, vm, vm_fields, vm_seq, Value, Vm};
use vstd::prelude::*;
use vstd::string::*;

verus! {

/// The position of the first dot in `p` at or after `i`, or the length when
/// there is none.
pub open spec fn dot_from(p: Seq<char>, i: int) -> int
    decreases p.len() - i,
{
    if i < 0 || i >= p.len() {
        p.len() as int
    } else if p[i] == '.' {
        i
    } else {
        dot_from(p, i + 1)
    }
}

/// The first dot lies between the start of the search and the end of the
/// path.
pub proof fn lemma_dot_bounds(p: Seq<char>, i: int)
    requires
        0 <= i <= p.len(),
    ensures
        i <= dot_from(p, i) <= p.len(),
    decreases p.len() - i,
{
    if i < p.len() && p[i] != '.' {
        lemma_dot_bounds(p, i + 1);
    }
}

/// A path without a dot is one single segment.
pub proof fn lemma_no_dot(p: Seq<char>, i: int)
    requires
        0 <= i,
        forall|q: int| 0 <= q < p.len() ==> p[q] != '.',
    ensures
        dot_from(p, i) == p.len(),
    decreases p.len() - i,
{
    if i < p.len() {
        lemma_no_dot(p, i + 1);
    }
}

/// Whether scalar or array value `w` counts as equal to `target`: either the
/// value itself is equal, or it is an array one of whose elements is equal.
pub open spec fn value_matches(w: Vm, target: Vm) -> bool {
    ||| w == target
    ||| match w {
        Vm::Arr(els) => exists|j: int| 0 <= j < els.len() && #[trigger] els[j] == target,
        _ => false,
    }
}

/// Whether document value `v` matches an equality condition on the dotted
/// path `p`: the path is followed field by field, descending into every
/// array element on the way.
///
/// An equality condition on null matches only a field stored as null; a
/// document that lacks the field does not match. Document stores commonly
/// let a null condition match absent fields as well; this model deviates
/// there, and the one caller it could touch says so at its filter.
pub open spec fn m_eq(v: Vm, p: Seq<char>, target: Vm) -> bool
    decreases v,
{
    match v {
        Vm::Obj(fs) => {
            let d = dot_from(p, 0);
            if d < p.len() {
                exists|i: int|
                    0 <= i < fs.len() && (#[trigger] fs[i]).0 == p.subrange(0, d) && m_eq(
                        fs[i].1,
                        p.subrange(d + 1, p.len() as int),
                        target,
                    )
            } else {
                exists|i: int|
                    0 <= i < fs.len() && (#[trigger] fs[i]).0 == p && value_matches(
                        fs[i].1,
                        target,
                    )
            }
        },
        Vm::Arr(els) => exists|j: int| 0 <= j < els.len() && m_eq(#[trigger] els[j], p, target),
        _ => false,
    }
}

/// Whether document value `v` has, at dotted path `p`, a string containing
/// `pat` without regard to ASCII case.
pub open spec fn m_regex(v: Vm, p: Seq<char>, pat: Seq<char>) -> bool
    decreases v,
{
    match v {
        Vm::Obj(fs) => {
            let d = dot_from(p, 0);
            if d < p.len() {
                exists|i: int|
                    0 <= i < fs.len() && (#[trigger] fs[i]).0 == p.subrange(0, d) && m_regex(
                        fs[i].1,
                        p.subrange(d + 1, p.len() as int),
                        pat,
                    )
            } else {
                exists|i: int|
                    0 <= i < fs.len() && (#[trigger] fs[i]).0 == p && str_value_contains(
                        fs[i].1,
                        pat,
                    )
            }
        },
        Vm::Arr(els) => exists|j: int| 0 <= j < els.len() && m_regex(#[trigger] els[j], p, pat),
        _ => false,
    }
}

/// Whether `w` is a string containing `pat`, or an array with such a string.
pub open spec fn str_value_contains(w: Vm, pat: Seq<char>) -> bool {
    match w {
        Vm::Str(s) => text::contains_ci(s, pat),
        Vm::Arr(els) => exists|j: int| 0 <= j < els.len() && is_str_containing(#[trigger] els[j], pat),
        _ => false,
    }
}

/// Whether `w` is a string containing `pat`.
pub open spec fn is_str_containing(w: Vm, pat: Seq<char>) -> bool {
    match w {
        Vm::Str(s) => text::contains_ci(s, pat),
        _ => false,
    }
}

/// A query condition on one dotted attribute path.
pub enum Filter {
    /// Matches every document.
    All,
    /// The value at the path equals the given value.
    Eq(String, Value),
    /// The string at the path contains the given text, without regard to
    /// ASCII case.
    Regex(String, String),
    /// The array at the path contains every one of the given values.
    AllOf(String, Vec<Value>),
}

/// The model of a filter.
pub ghost enum FilterM {
    All,
    Eq(Seq<char>, Vm),
    Regex(Seq<char>, Seq<char>),
    AllOf(Seq<char>, Seq<Vm>),
}

impl View for Filter {
    type V = FilterM;

    open spec fn view(&self) -> FilterM {
        match self {
            Filter::All => FilterM::All,
            Filter::Eq(p, v) => FilterM::Eq(p@, vm(*v)),
            Filter::Regex(p, s) => FilterM::Regex(p@, s@),
            Filter::AllOf(p, vs) => FilterM::AllOf(p@, vm_seq(vs@)),
        }
    }
}

/// Whether a document matches a filter.
pub open spec fn matched(d: Vm, f: FilterM) -> bool {
    match f {
        FilterM::All => true,
        FilterM::Eq(p, t) => m_eq(d, p, t),
        FilterM::Regex(p, s) => m_regex(d, p, s),
        FilterM::AllOf(p, ts) => forall|j: int| 0 <= j < ts.len() ==> m_eq(d, p, #[trigger] ts[j]),
    }
}

/// Decides whether a document matches a filter.
pub fn filter_matches(d: &Value, f: &Filter) -> (r: bool)
    ensures
        r == matched(d@, f@),
{
    match f {
        Filter::All => true,
        Filter::Eq(p, t) => eq_matches(d, p.as_str(), t),
        Filter::Regex(p, s) => regex_matches(d, p.as_str(), s.as_str()),
        Filter::AllOf(p, ts) => {
            proof {
                lemma_vm_seq(ts@);
                assert(f@ == FilterM::AllOf(p@, vm_seq(ts@)));
            }
            let n = ts.len();
            let mut j: usize = 0;
            while j < n
                invariant
                    n == ts@.len(),
                    0 <= j <= n,
                    f == Filter::AllOf(*p, *ts),
                    vm_seq(ts@).len() == n,
                    forall|q: int| 0 <= q < n ==> #[trigger] vm_seq(ts@)[q] == vm(ts@[q]),
                    forall|q: int| 0 <= q < j ==> m_eq(d@, p@, #[trigger] vm_seq(ts@)[q]),
                decreases n - j,
            {
                if !eq_matches(d, p.as_str(), &ts[j]) {
                    proof {
                        assert(!m_eq(d@, p@, vm_seq(ts@)[j as int]));
                        assert(f@ == FilterM::AllOf(p@, vm_seq(ts@)));
                        assert(!matched(d@, f@)) by {
                            assert(f@->AllOf_1 == vm_seq(ts@));
                            assert(0 <= j < f@->AllOf_1.len()
                                && !m_eq(d@, f@->AllOf_0, f@->AllOf_1[j as int]));
                        }
                    }
                    return false;
                }
                proof {
                    assert(m_eq(d@, p@, vm_seq(ts@)[j as int]));
                }
                j = j + 1;
            }
            proof {
                assert(matched(d@, f@));
            }
            true
        },
    }
}

/// The dot position in a path slice.
fn find_dot(p: &str) -> (r: usize)
    ensures
        r == dot_from(p@, 0),
        r <= p@.len(),
{
    let n = p.unicode_len();
    let mut i: usize = 0;
    while i < n
        invariant
            n == p@.len(),
            0 <= i <= n,
            dot_from(p@, 0) == dot_from(p@, i as int),
        decreases n - i,
    {
        if p.get_char(i) == '.' {
            return i;
        }
        proof {
            lemma_dot_bounds(p@, i as int + 1);
        }
        i = i + 1;
    }
    n
}

/// Decides an equality condition at a dotted path.
pub fn eq_matches(v: &Value, p: &str, target: &Value) -> (r: bool)
    ensures
        r == m_eq(v@, p@, vm(*target)),
    decreases v,
{
    match v {
        Value::Obj(fs) => {
            proof {
                assert(v@ == Vm::Obj(vm_fields(fs@)));
            }
            let d = find_dot(p);
            let n = p.unicode_len();
            if d < n {
                let key = p.substring_char(0, d);
                let rest = p.substring_char(d + 1, n);
                let r = eq_matches_fields_deep(fs, key, rest, target);
                proof {
                    let ghost sk = p@.subrange(0, d as int);
                    let ghost sr = p@.subrange(d as int + 1, p@.len() as int);
                    assert(key@ == sk && rest@ == sr);
                    assert(v@->Obj_0 == vm_fields(fs@));
                    if r {
                        let i = choose|i: int|
                            0 <= i < vm_fields(fs@).len() && (#[trigger] vm_fields(fs@)[i]).0
                                == key@ && m_eq(vm_fields(fs@)[i].1, rest@, vm(*target));
                        assert(0 <= i < v@->Obj_0.len() && (v@->Obj_0[i]).0 == sk
                            && m_eq(v@->Obj_0[i].1, sr, vm(*target)));
                        assert(m_eq(v@, p@, vm(*target)));
                    } else {
                        assert forall|i: int|
                            0 <= i < v@->Obj_0.len() && (#[trigger] v@->Obj_0[i]).0 == sk
                            implies !m_eq(v@->Obj_0[i].1, sr, vm(*target)) by {
                            assert(!((vm_fields(fs@)[i]).0 == key@ && m_eq(
                                vm_fields(fs@)[i].1,
                                rest@,
                                vm(*target),
                            )));
                        }
                        assert(!m_eq(v@, p@, vm(*target)));
                    }
                }
                r
            } else {
                let r = eq_matches_fields_leaf(fs, p, target);
                proof {
                    assert(v@->Obj_0 == vm_fields(fs@));
                    if r {
                        let i = choose|i: int|
                            0 <= i < vm_fields(fs@).len() && (#[trigger] vm_fields(fs@)[i]).0
                                == p@ && value_matches(vm_fields(fs@)[i].1, vm(*target));
                        assert(0 <= i < v@->Obj_0.len() && (v@->Obj_0[i]).0 == p@
                            && value_matches(v@->Obj_0[i].1, vm(*target)));
                        assert(m_eq(v@, p@, vm(*target)));
                    } else {
                        assert forall|i: int|
                            0 <= i < v@->Obj_0.len() && (#[trigger] v@->Obj_0[i]).0 == p@
                            implies !value_matches(v@->Obj_0[i].1, vm(*target)) by {
                            assert(!((vm_fields(fs@)[i]).0 == p@ && value_matches(
                                vm_fields(fs@)[i].1,
                                vm(*target),
                            )));
                        }
                        assert(!m_eq(v@, p@, vm(*target)));
                    }
                }
                r
            }
        },
        Value::Arr(els) => {
            let r = eq_matches_arr(els, p, target);
            proof {
                assert(v@->Arr_0 == vm_seq(els@));
                if r {
                    let j = choose|j: int|
                        0 <= j < vm_seq(els@).len() && m_eq(
                            #[trigger] vm_seq(els@)[j],
                            p@,
                            vm(*target),
                        );
                    assert(0 <= j < v@->Arr_0.len() && m_eq(v@->Arr_0[j], p@, vm(*target)));
                    assert(m_eq(v@, p@, vm(*target)));
                } else {
                    assert forall|j: int| 0 <= j < v@->Arr_0.len()
                        implies !m_eq(#[trigger] v@->Arr_0[j], p@, vm(*target)) by {
                        assert(!m_eq(vm_seq(els@)[j], p@, vm(*target)));
                    }
                    assert(!m_eq(v@, p@, vm(*target)));
                }
            }
            r
        },
        _ => {
            proof {
                assert(!m_eq(v@, p@, vm(*target)));
            }
            false
        },
    }
}

/// Decides a deep equality condition over an object's fields.
fn eq_matches_fields_deep(
    fs: &Vec<(String, Value)>,
    key: &str,
    rest: &str,
    target: &Value,
) -> (r: bool)
    ensures
        r == exists|i: int|
            0 <= i < vm_fields(fs@).len() && (#[trigger] vm_fields(fs@)[i]).0 == key@ && m_eq(
                vm_fields(fs@)[i].1,
                rest@,
                vm(*target),
            ),
    decreases fs@,
{
    proof {
        lemma_vm_fields(fs@);
    }
    let n = fs.len();
    let mut i: usize = 0;
    while i < n
        invariant
            n == fs@.len(),
            0 <= i <= n,
            vm_fields(fs@).len() == n,
            forall|q: int| 0 <= q < n
                ==> #[trigger] vm_fields(fs@)[q] == (fs@[q].0@, vm(fs@[q].1)),
            forall|q: int|
                0 <= q < i ==> !((#[trigger] vm_fields(fs@)[q]).0 == key@ && m_eq(
                    vm_fields(fs@)[q].1,
                    rest@,
                    vm(*target),
                )),
        decreases n - i,
    {
        if text::str_eq(fs[i].0.as_str(), key) {
            if eq_matches(&fs[i].1, rest, target) {
                proof {
                    assert((vm_fields(fs@)[i as int]).0 == key@);
                    assert(m_eq(vm_fields(fs@)[i as int].1, rest@, vm(*target)));
                }
                return true;
            }
        }
        proof {
            assert(!((vm_fields(fs@)[i as int]).0 == key@ && m_eq(
                vm_fields(fs@)[i as int].1,
                rest@,
                vm(*target),
            )));
        }
        i = i + 1;
    }
    false
}

/// Decides a leaf equality condition over an object's fields.
fn eq_matches_fields_leaf(fs: &Vec<(String, Value)>, key: &str, target: &Value) -> (r: bool)
    ensures
        r == exists|i: int|
            0 <= i < vm_fields(fs@).len() && (#[trigger] vm_fields(fs@)[i]).0 == key@
                && value_matches(vm_fields(fs@)[i].1, vm(*target)),
    decreases fs@,
{
    proof {
        lemma_vm_fields(fs@);
    }
    let n = fs.len();
    let mut i: usize = 0;
    while i < n
        invariant
            n == fs@.len(),
            0 <= i <= n,
            vm_fields(fs@).len() == n,
            forall|q: int| 0 <= q < n
                ==> #[trigger] vm_fields(fs@)[q] == (fs@[q].0@, vm(fs@[q].1)),
            forall|q: int|
                0 <= q < i ==> !((#[trigger] vm_fields(fs@)[q]).0 == key@ && value_matches(
                    vm_fields(fs@)[q].1,
                    vm(*target),
                )),
        decreases n - i,
    {
        if text::str_eq(fs[i].0.as_str(), key) {
            if value_matches_exec(&fs[i].1, target) {
                proof {
                    assert((vm_fields(fs@)[i as int]).0 == key@);
                    assert(value_matches(vm_fields(fs@)[i as int].1, vm(*target)));
                }
                return true;
            }
        }
        proof {
            assert(!((vm_fields(fs@)[i as int]).0 == key@ && value_matches(
                vm_fields(fs@)[i as int].1,
                vm(*target),
            )));
        }
        i = i + 1;
    }
    false
}

/// Decides an equality condition over an array's elements.
fn eq_matches_arr(els: &Vec<Value>, p: &str, target: &Value) -> (r: bool)
    ensures
        r == exists|j: int|
            0 <= j < vm_seq(els@).len() && m_eq(#[trigger] vm_seq(els@)[j], p@, vm(*target)),
    decreases els@,
{
    proof {
        lemma_vm_seq(els@);
    }
    let n = els.len();
    let mut j: usize = 0;
    while j < n
        invariant
            n == els@.len(),
            0 <= j <= n,
            vm_seq(els@).len() == n,
            forall|q: int| 0 <= q < n ==> #[trigger] vm_seq(els@)[q] == vm(els@[q]),
            forall|q: int| 0 <= q < j ==> !m_eq(#[trigger] vm_seq(els@)[q], p@, vm(*target)),
        decreases n - j,
    {
        if eq_matches(&els[j], p, target) {
            proof {
                assert(m_eq(vm_seq(els@)[j as int], p@, vm(*target)));
            }
            return true;
        }
        j = j + 1;
    }
    false
}

/// Decides whether a scalar or array value counts as equal to `target`.
fn value_matches_exec(w: &Value, target: &Value) -> (r: bool)
    ensures
        r == value_matches(w@, vm(*target)),
{
    if crate::value::value_eq(w, target) {
        return true;
    }
    match w {
        Value::Arr(els) => {
            proof {
                lemma_vm_seq(els@);
                assert(w@ == Vm::Arr(vm_seq(els@)));
            }
            let n = els.len();
            let mut j: usize = 0;
            while j < n
                invariant
                    n == els@.len(),
                    0 <= j <= n,
                    w == Value::Arr(*els),
                    vm_seq(els@).len() == n,
                    forall|q: int| 0 <= q < n ==> #[trigger] vm_seq(els@)[q] == vm(els@[q]),
                    forall|q: int| 0 <= q < j ==> #[trigger] vm_seq(els@)[q] != vm(*target),
                decreases n - j,
            {
                if crate::value::value_eq(&els[j], target) {
                    proof {
                        assert(vm_seq(els@)[j as int] == vm(*target));
                        assert(w@ == Vm::Arr(vm_seq(els@)));
                        assert(value_matches(w@, vm(*target))) by {
                            assert(w@->Arr_0 == vm_seq(els@));
                            assert(0 <= j < w@->Arr_0.len()
                                && w@->Arr_0[j as int] == vm(*target));
                        }
                    }
                    return true;
                }
                proof {
                    assert(vm_seq(els@)[j as int] != vm(*target));
                }
                j = j + 1;
            }
            proof {
                assert(!value_matches(w@, vm(*target)));
            }
            false
        },
        _ => {
            proof {
                assert(!(w@ is Arr));
                assert(!value_matches(w@, vm(*target)));
            }
            false
        },
    }
}

/// Decides a substring condition at a dotted path.
pub fn regex_matches(v: &Value, p: &str, pat: &str) -> (r: bool)
    ensures
        r == m_regex(v@, p@, pat@),
    decreases v,
{
    match v {
        Value::Obj(fs) => {
            proof {
                assert(v@ == Vm::Obj(vm_fields(fs@)));
            }
            let d = find_dot(p);
            let n = p.unicode_len();
            if d < n {
                let key = p.substring_char(0, d);
                let rest = p.substring_char(d + 1, n);
                let r = regex_matches_fields_deep(fs, key, rest, pat);
                proof {
                    let ghost sk = p@.subrange(0, d as int);
                    let ghost sr = p@.subrange(d as int + 1, p@.len() as int);
                    assert(key@ == sk && rest@ == sr);
                    assert(v@->Obj_0 == vm_fields(fs@));
                    if r {
                        let i = choose|i: int|
                            0 <= i < vm_fields(fs@).len() && (#[trigger] vm_fields(fs@)[i]).0
                                == key@ && m_regex(vm_fields(fs@)[i].1, rest@, pat@);
                        assert(0 <= i < v@->Obj_0.len() && (v@->Obj_0[i]).0 == sk
                            && m_regex(v@->Obj_0[i].1, sr, pat@));
                        assert(m_regex(v@, p@, pat@));
                    } else {
                        assert forall|i: int|
                            0 <= i < v@->Obj_0.len() && (#[trigger] v@->Obj_0[i]).0 == sk
                            implies !m_regex(v@->Obj_0[i].1, sr, pat@) by {
                            assert(!((vm_fields(fs@)[i]).0 == key@ && m_regex(
                                vm_fields(fs@)[i].1,
                                rest@,
                                pat@,
                            )));
                        }
                        assert(!m_regex(v@, p@, pat@));
                    }
                }
                r
            } else {
                let r = regex_matches_fields_leaf(fs, p, pat);
                proof {
                    assert(v@->Obj_0 == vm_fields(fs@));
                    if r {
                        let i = choose|i: int|
                            0 <= i < vm_fields(fs@).len() && (#[trigger] vm_fields(fs@)[i]).0
                                == p@ && str_value_contains(vm_fields(fs@)[i].1, pat@);
                        assert(0 <= i < v@->Obj_0.len() && (v@->Obj_0[i]).0 == p@
                            && str_value_contains(v@->Obj_0[i].1, pat@));
                        assert(m_regex(v@, p@, pat@));
                    } else {
                        assert forall|i: int|
                            0 <= i < v@->Obj_0.len() && (#[trigger] v@->Obj_0[i]).0 == p@
                            implies !str_value_contains(v@->Obj_0[i].1, pat@) by {
                            assert(!((vm_fields(fs@)[i]).0 == p@ && str_value_contains(
                                vm_fields(fs@)[i].1,
                                pat@,
                            )));
                        }
                        assert(!m_regex(v@, p@, pat@));
                    }
                }
                r
            }
        },
        Value::Arr(els) => {
            let r = regex_matches_arr(els, p, pat);
            proof {
                assert(v@->Arr_0 == vm_seq(els@));
                if r {
                    let j = choose|j: int|
                        0 <= j < vm_seq(els@).len() && m_regex(
                            #[trigger] vm_seq(els@)[j],
                            p@,
                            pat@,
                        );
                    assert(0 <= j < v@->Arr_0.len() && m_regex(v@->Arr_0[j], p@, pat@));
                    assert(m_regex(v@, p@, pat@));
                } else {
                    assert forall|j: int| 0 <= j < v@->Arr_0.len()
                        implies !m_regex(#[trigger] v@->Arr_0[j], p@, pat@) by {
                        assert(!m_regex(vm_seq(els@)[j], p@, pat@));
                    }
                    assert(!m_regex(v@, p@, pat@));
                }
            }
            r
        },
        _ => {
            proof {
                assert(!m_regex(v@, p@, pat@));
            }
            false
        },
    }
}

/// Decides a deep substring condition over an object's fields.
fn regex_matches_fields_deep(
    fs: &Vec<(String, Value)>,
    key: &str,
    rest: &str,
    pat: &str,
) -> (r: bool)
    ensures
        r == exists|i: int|
            0 <= i < vm_fields(fs@).len() && (#[trigger] vm_fields(fs@)[i]).0 == key@ && m_regex(
                vm_fields(fs@)[i].1,
                rest@,
                pat@,
            ),
    decreases fs@,
{
    proof {
        lemma_vm_fields(fs@);
    }
    let n = fs.len();
    let mut i: usize = 0;
    while i < n
        invariant
            n == fs@.len(),
            0 <= i <= n,
            vm_fields(fs@).len() == n,
            forall|q: int| 0 <= q < n
                ==> #[trigger] vm_fields(fs@)[q] == (fs@[q].0@, vm(fs@[q].1)),
            forall|q: int|
                0 <= q < i ==> !((#[trigger] vm_fields(fs@)[q]).0 == key@ && m_regex(
                    vm_fields(fs@)[q].1,
                    rest@,
                    pat@,
                )),
        decreases n - i,
    {
        if text::str_eq(fs[i].0.as_str(), key) {
            if regex_matches(&fs[i].1, rest, pat) {
                proof {
                    assert((vm_fields(fs@)[i as int]).0 == key@);
                    assert(m_regex(vm_fields(fs@)[i as int].1, rest@, pat@));
                }
                return true;
            }
        }
        proof {
            assert(!((vm_fields(fs@)[i as int]).0 == key@ && m_regex(
                vm_fields(fs@)[i as int].1,
                rest@,
                pat@,
            )));
        }
        i = i + 1;
    }
    false
}

/// Decides a leaf substring condition over an object's fields.
fn regex_matches_fields_leaf(fs: &Vec<(String, Value)>, key: &str, pat: &str) -> (r: bool)
    ensures
        r == exists|i: int|
            0 <= i < vm_fields(fs@).len() && (#[trigger] vm_fields(fs@)[i]).0 == key@
                && str_value_contains(vm_fields(fs@)[i].1, pat@),
    decreases fs@,
{
    proof {
        lemma_vm_fields(fs@);
    }
    let n = fs.len();
    let mut i: usize = 0;
    while i < n
        invariant
            n == fs@.len(),
            0 <= i <= n,
            vm_fields(fs@).len() == n,
            forall|q: int| 0 <= q < n
                ==> #[trigger] vm_fields(fs@)[q] == (fs@[q].0@, vm(fs@[q].1)),
            forall|q: int|
                0 <= q < i ==> !((#[trigger] vm_fields(fs@)[q]).0 == key@ && str_value_contains(
                    vm_fields(fs@)[q].1,
                    pat@,
                )),
        decreases n - i,
    {
        if text::str_eq(fs[i].0.as_str(), key) {
            if str_value_contains_exec(&fs[i].1, pat) {
                proof {
                    assert((vm_fields(fs@)[i as int]).0 == key@);
                    assert(str_value_contains(vm_fields(fs@)[i as int].1, pat@));
                }
                return true;
            }
        }
        proof {
            assert(!((vm_fields(fs@)[i as int]).0 == key@ && str_value_contains(
                vm_fields(fs@)[i as int].1,
                pat@,
            )));
        }
        i = i + 1;
    }
    false
}

/// Decides a substring condition over an array's elements.
fn regex_matches_arr(els: &Vec<Value>, p: &str, pat: &str) -> (r: bool)
    ensures
        r == exists|j: int|
            0 <= j < vm_seq(els@).len() && m_regex(#[trigger] vm_seq(els@)[j], p@, pat@),
    decreases els@,
{
    proof {
        lemma_vm_seq(els@);
    }
    let n = els.len();
    let mut j: usize = 0;
    while j < n
        invariant
            n == els@.len(),
            0 <= j <= n,
            vm_seq(els@).len() == n,
            forall|q: int| 0 <= q < n ==> #[trigger] vm_seq(els@)[q] == vm(els@[q]),
            forall|q: int| 0 <= q < j ==> !m_regex(#[trigger] vm_seq(els@)[q], p@, pat@),
        decreases n - j,
    {
        if regex_matches(&els[j], p, pat) {
            proof {
                assert(m_regex(vm_seq(els@)[j as int], p@, pat@));
            }
            return true;
        }
        j = j + 1;
    }
    false
}

/// Decides whether a value is or holds a string containing `pat`.
fn str_value_contains_exec(w: &Value, pat: &str) -> (r: bool)
    ensures
        r == str_value_contains(w@, pat@),
{
    match w {
        Value::Str(s) => text::str_contains_ci(s.as_str(), pat),
        Value::Arr(els) => {
            proof {
                lemma_vm_seq(els@);
                assert(w@ == Vm::Arr(vm_seq(els@)));
            }
            let n = els.len();
            let mut j: usize = 0;
            while j < n
                invariant
                    n == els@.len(),
                    0 <= j <= n,
                    w == Value::Arr(*els),
                    vm_seq(els@).len() == n,
                    forall|q: int| 0 <= q < n ==> #[trigger] vm_seq(els@)[q] == vm(els@[q]),
                    forall|q: int| 0 <= q < j ==> !is_str_containing(#[trigger] vm_seq(els@)[q], pat@),
                decreases n - j,
            {
                let hit = match &els[j] {
                    Value::Str(s) => text::str_contains_ci(s.as_str(), pat),
                    _ => false,
                };
                if hit {
                    proof {
                        assert(is_str_containing(vm_seq(els@)[j as int], pat@));
                        assert(w@ == Vm::Arr(vm_seq(els@)));
                        assert(str_value_contains(w@, pat@)) by {
                            assert(w@->Arr_0 == vm_seq(els@));
                            assert(0 <= j < w@->Arr_0.len()
                                && is_str_containing(w@->Arr_0[j as int], pat@));
                        }
                    }
                    return true;
                }
                proof {
                    assert(!is_str_containing(vm_seq(els@)[j as int], pat@));
                }
                j = j + 1;
            }
            proof {
                assert(!str_value_contains(w@, pat@));
            }
            false
        },
        _ => {
            proof {
                assert(!str_value_contains(w@, pat@));
            }
            false
        },
    }
}

} // verus!
