//! Assignment: the combinators of the assignment operators, and how a write
//! through an index turns the current value into an array or a dictionary.
use crate::error::InterpretError;
use crate::operator::{quotient_exec, remainder_exec, quotient, remainder};
use crate::statement::AssignOrder;
use crate::token::Category;
use crate::value::{
    chars_of, decimal, equal_values, lemma_equal_refl, int_of, push_decimal, push_digits, string_from_chars, text_of,
    NaslValue,
};
use vstd::prelude::*;

verus! {

/// The value that assignment operator `op` stores, from the current value `l`
/// and the right side `r`.
pub open spec fn combined(op: Category, l: NaslValue, r: NaslValue) -> Result<NaslValue, InterpretError> {
    let x = int_of(l);
    let y = int_of(r);
    match op {
        Category::Equal => Ok(r),
        Category::PlusEqual => Ok(NaslValue::Number(x.wrapping_add(y))),
        Category::MinusEqual => Ok(NaslValue::Number(x.wrapping_sub(y))),
        Category::StarEqual => Ok(NaslValue::Number(x.wrapping_mul(y))),
        Category::SlashEqual => if y == 0 {
            Err(InterpretError::DivisionByZero)
        } else {
            Ok(NaslValue::Number(quotient(x, y)))
        },
        Category::PercentEqual => if y == 0 {
            Err(InterpretError::DivisionByZero)
        } else {
            Ok(NaslValue::Number(remainder(x, y)))
        },
        Category::LessLessEqual => Ok(NaslValue::Number(x.wrapping_shl(y as u32))),
        Category::GreaterGreaterEqual => Ok(NaslValue::Number(x.wrapping_shr(y as u32))),
        Category::GreaterGreaterGreaterEqual => Ok(
            NaslValue::Number((x as u32).wrapping_shr(y as u32) as i64),
        ),
        Category::PlusPlus => Ok(NaslValue::Number(x.wrapping_add(1))),
        Category::MinusMinus => Ok(NaslValue::Number(x.wrapping_sub(1))),
        _ => Err(InterpretError::WrongCategory),
    }
}

/// Applies the combinator of assignment operator `op`.
pub fn combine(op: &Category, l: &NaslValue, r: NaslValue) -> (res: Result<NaslValue, InterpretError>)
    ensures
        res == combined(*op, *l, r),
{
    let x = l.to_i64();
    let y = r.to_i64();
    match op {
        Category::Equal => Ok(r),
        Category::PlusEqual => Ok(NaslValue::Number(x.wrapping_add(y))),
        Category::MinusEqual => Ok(NaslValue::Number(x.wrapping_sub(y))),
        Category::StarEqual => Ok(NaslValue::Number(x.wrapping_mul(y))),
        Category::SlashEqual => if y == 0 {
            Err(InterpretError::DivisionByZero)
        } else {
            Ok(NaslValue::Number(quotient_exec(x, y)))
        },
        Category::PercentEqual => if y == 0 {
            Err(InterpretError::DivisionByZero)
        } else {
            Ok(NaslValue::Number(remainder_exec(x, y)))
        },
        Category::LessLessEqual => Ok(NaslValue::Number(x.wrapping_shl(#[verifier::truncate] (y as u32)))),
        Category::GreaterGreaterEqual => Ok(
            NaslValue::Number(x.wrapping_shr(#[verifier::truncate] (y as u32))),
        ),
        Category::GreaterGreaterGreaterEqual => {
            let shifted: u32 = (#[verifier::truncate] (x as u32)).wrapping_shr(
                #[verifier::truncate] (y as u32),
            );
            Ok(NaslValue::Number(shifted as i64))
        },
        Category::PlusPlus => Ok(NaslValue::Number(x.wrapping_add(1))),
        Category::MinusMinus => Ok(NaslValue::Number(x.wrapping_sub(1))),
        _ => Err(InterpretError::WrongCategory),
    }
}

/// The elements of `v` as an array: an array stays, any other value becomes
/// its single element.
pub open spec fn as_array(v: NaslValue) -> Seq<NaslValue> {
    match v {
        NaslValue::Array(x) => x@,
        _ => seq![v],
    }
}

/// `s` extended with `Null` up to length `n`.
pub open spec fn padded(s: Seq<NaslValue>, n: int) -> Seq<NaslValue> {
    if s.len() >= n {
        s
    } else {
        s + Seq::new((n - s.len()) as nat, |k: int| NaslValue::Null)
    }
}

/// The keys and values of dictionary entries.
pub open spec fn entries_view(d: Seq<(String, NaslValue)>) -> Seq<(Seq<char>, NaslValue)> {
    d.map_values(|e: (String, NaslValue)| (e.0@, e.1))
}

/// The entries of `v` as a dictionary: a dictionary stays, an array is keyed by
/// its indices, `Null` has none, any other value sits under key `0`.
pub open spec fn as_dict(v: NaslValue) -> Seq<(Seq<char>, NaslValue)> {
    match v {
        NaslValue::Dict(d) => entries_view(d@),
        NaslValue::Array(x) => Seq::new(x@.len(), |i: int| (decimal(i), x@[i])),
        NaslValue::Null => Seq::empty(),
        _ => seq![(seq!['0'], v)],
    }
}

/// The position of `key` in the entries `d`.
pub open spec fn entry_index(d: Seq<(Seq<char>, NaslValue)>, key: Seq<char>, i: int) -> Option<int>
    decreases d.len() - i,
{
    if i < 0 || i >= d.len() {
        None
    } else if d[i].0 == key {
        Some(i)
    } else {
        entry_index(d, key, i + 1)
    }
}

/// The value under `key`, or `Null`.
pub open spec fn entry_value(d: Seq<(Seq<char>, NaslValue)>, key: Seq<char>) -> NaslValue {
    match entry_index(d, key, 0) {
        Some(i) => d[i].1,
        None => NaslValue::Null,
    }
}

/// `d` with `key` bound to `v`.
pub open spec fn entry_set(d: Seq<(Seq<char>, NaslValue)>, key: Seq<char>, v: NaslValue) -> Seq<(Seq<char>, NaslValue)> {
    match entry_index(d, key, 0) {
        Some(i) => d.update(i, (key, v)),
        None => d.push((key, v)),
    }
}

/// What an assignment stores and gives back.
pub struct Assigned {
    /// The new value of the variable
    pub stored: NaslValue,
    /// The value of the assignment expression
    pub returned: NaslValue,
}

/// Whether index `idx` addresses a dictionary entry of `current`.
pub open spec fn keyed(current: NaslValue, idx: NaslValue) -> bool {
    idx is String || current is Dict
}

/// The effect of assignment `op` with `order` on a variable holding
/// `current`, at `index` when there is one, with right side `right`.
pub open spec fn assignment(
    op: Category,
    order: AssignOrder,
    current: NaslValue,
    index: Option<NaslValue>,
    right: NaslValue,
    res: Result<Assigned, InterpretError>,
) -> bool {
    match index {
        None => match combined(op, current, right) {
            Ok(new) => res is Ok && res->Ok_0.stored == new && equal_values(
                res->Ok_0.returned,
                if order == AssignOrder::AssignReturn {
                    new
                } else {
                    current
                },
            ),
            Err(e) => res == Err::<Assigned, InterpretError>(e),
        },
        Some(idx) => if keyed(current, idx) {
            let d = as_dict(current);
            let key = text_of(idx);
            let orig = entry_value(d, key);
            match combined(op, orig, right) {
                Ok(new) => {
                    &&& res is Ok
                    &&& res->Ok_0.stored is Dict
                    &&& entries_view(res->Ok_0.stored->Dict_0@) == entry_set(d, key, new)
                    &&& equal_values(
                        res->Ok_0.returned,
                        if order == AssignOrder::AssignReturn {
                            new
                        } else {
                            orig
                        },
                    )
                },
                Err(e) => res == Err::<Assigned, InterpretError>(e),
            }
        } else if int_of(idx) < 0 {
            res == Err::<Assigned, InterpretError>(InterpretError::NegativeIndex(int_of(idx)))
        } else {
            let i = int_of(idx) as int;
            let arr = padded(as_array(current), i + 1);
            let orig = arr[i];
            match combined(op, orig, right) {
                Ok(new) => {
                    &&& res is Ok
                    &&& res->Ok_0.stored is Array
                    &&& res->Ok_0.stored->Array_0@ == arr.update(i, new)
                    &&& equal_values(
                        res->Ok_0.returned,
                        if order == AssignOrder::AssignReturn {
                            new
                        } else {
                            orig
                        },
                    )
                },
                Err(e) => res == Err::<Assigned, InterpretError>(e),
            }
        },
    }
}


pub(crate) proof fn lemma_entry_index_bounds(d: Seq<(Seq<char>, NaslValue)>, key: Seq<char>, i: int)
    requires
        0 <= i,
    ensures
        entry_index(d, key, i) is Some ==> i <= entry_index(d, key, i)->Some_0 < d.len()
            && d[entry_index(d, key, i)->Some_0].0 == key,
    decreases d.len() - i,
{
    if i < d.len() && d[i].0 != key {
        lemma_entry_index_bounds(d, key, i + 1);
    }
}

fn same_text(a: &str, b: &str) -> (r: bool)
    ensures
        r == (a@ == b@),
{
    let x = chars_of(a);
    let y = chars_of(b);
    if x.len() != y.len() {
        return false;
    }
    let mut i: usize = 0;
    while i < x.len()
        invariant
            x@ == a@,
            y@ == b@,
            x@.len() == y@.len(),
            i <= x@.len(),
            forall|k: int| 0 <= k < i ==> x@[k] == y@[k],
        decreases x@.len() - i,
    {
        if x[i] != y[i] {
            return false;
        }
        i = i + 1;
    }
    assert(x@ =~= y@);
    true
}

pub(crate) fn entry_index_exec(d: &Vec<(String, NaslValue)>, key: &str) -> (r: Option<usize>)
    ensures
        match entry_index(entries_view(d@), key@, 0) {
            Some(j) => r is Some && r->Some_0 as int == j,
            None => r is None,
        },
{
    proof {
        lemma_entry_index_bounds(entries_view(d@), key@, 0);
    }
    let mut i: usize = 0;
    while i < d.len()
        invariant
            i <= d@.len(),
            entry_index(entries_view(d@), key@, 0) == entry_index(entries_view(d@), key@, i as int),
        decreases d@.len() - i,
    {
        if same_text(d[i].0.as_str(), key) {
            return Some(i);
        }
        i = i + 1;
    }
    None
}

fn index_string(n: usize) -> (r: String)
    ensures
        r@ == decimal(n as int),
{
    let mut v: Vec<char> = Vec::new();
    push_digits(&mut v, n as u64);
    assert(v@ =~= decimal(n as int));
    string_from_chars(&v)
}

fn decimal_string(n: i64) -> (r: String)
    ensures
        r@ == decimal(n as int),
{
    let mut v: Vec<char> = Vec::new();
    push_decimal(&mut v, n);
    assert(v@ =~= decimal(n as int));
    string_from_chars(&v)
}

/// The entries of `v` as a dictionary, see `as_dict`.
fn into_dict(v: NaslValue) -> (r: Vec<(String, NaslValue)>)
    ensures
        entries_view(r@) == as_dict(v),
{
    match v {
        NaslValue::Dict(d) => d,
        NaslValue::Array(x) => {
            let ghost xs = x@;
            let mut x = x;
            let mut out: Vec<(String, NaslValue)> = Vec::new();
            let mut i: usize = 0;
            let n = x.len();
            while x.len() > 0
                invariant
                    n == xs.len(),
                    i + x@.len() == n,
                    out@.len() == i,
                    x@ == xs.subrange(i as int, n as int),
                    entries_view(out@) == Seq::new(i as nat, |k: int| (decimal(k), xs[k])),
                decreases x@.len(),
            {
                assert(x@[0] == xs[i as int]);
                let ghost before = out@;
                let e = x.remove(0);
                let key = index_string(i);
                out.push((key, e));
                proof {
                    assert(entries_view(out@)[i as int] == (decimal(i as int), xs[i as int]));
                    assert forall|k: int| 0 <= k < i implies entries_view(out@)[k] == (
                        decimal(k),
                        xs[k],
                    ) by {
                        assert(out@[k] == before[k]);
                        assert(entries_view(before)[k] == Seq::new(
                            i as nat,
                            |k: int| (decimal(k), xs[k]),
                        )[k]);
                    }
                }
                i = i + 1;
                proof {
                    assert(entries_view(out@) =~= Seq::new(i as nat, |k: int| (decimal(k), xs[k])));
                    assert(x@ =~= xs.subrange(i as int, n as int));
                }
            }
            out
        },
        NaslValue::Null => {
            let out: Vec<(String, NaslValue)> = Vec::new();
            assert(entries_view(out@) =~= Seq::<(Seq<char>, NaslValue)>::empty());
            out
        },
        other => {
            let mut out: Vec<(String, NaslValue)> = Vec::new();
            let key = decimal_string(0);
            assert(decimal(0) =~= seq!['0']);
            out.push((key, other));
            assert(entries_view(out@) =~= seq![(seq!['0'], other)]);
            out
        },
    }
}

/// Performs assignment `op` with `order` on a variable holding `current`, at
/// `index` when there is one: returns what to store and what the assignment
/// gives back.
pub fn assign_value(
    op: &Category,
    order: AssignOrder,
    current: NaslValue,
    index: Option<NaslValue>,
    right: NaslValue,
) -> (res: Result<Assigned, InterpretError>)
    ensures
        assignment(*op, order, current, index, right, res),
        index is Some && keyed(current, index->Some_0) && res is Ok && (current is Dict
            ==> crate::laws::unique_keys(entries_view(current->Dict_0@))) ==> res->Ok_0.stored is Dict
            && crate::laws::unique_keys(entries_view(res->Ok_0.stored->Dict_0@)),
{
    let ghost gcur = current;
    let ghost gidx = index;
    let ghost gright = right;
    let res = assign_value_inner(op, order, current, index, right);
    proof {
        if gidx is Some && keyed(gcur, gidx->Some_0) && res is Ok && (gcur is Dict
            ==> crate::laws::unique_keys(entries_view(gcur->Dict_0@))) {
            crate::laws::law_assignment_keeps_keys_unique(*op, order, gcur, gidx->Some_0, gright, res);
        }
    }
    res
}

fn assign_value_inner(
    op: &Category,
    order: AssignOrder,
    current: NaslValue,
    index: Option<NaslValue>,
    right: NaslValue,
) -> (res: Result<Assigned, InterpretError>)
    ensures
        assignment(*op, order, current, index, right, res),
{
    match index {
        None => {
            let new = match combine(op, &current, right) {
                Ok(v) => v,
                Err(e) => {
                    return Err(e);
                },
            };
            let returned = match order {
                AssignOrder::AssignReturn => new.deep_clone(),
                AssignOrder::ReturnAssign => current,
            };
            proof {
                lemma_equal_refl(returned);
            }
            Ok(Assigned { stored: new, returned })
        },
        Some(idx) => {
            let is_keyed = match (&idx, &current) {
                (NaslValue::String(_), _) => true,
                (_, NaslValue::Dict(_)) => true,
                _ => false,
            };
            if is_keyed {
                let ghost d0 = as_dict(current);
                let key = idx.to_text();
                let mut d = into_dict(current);
                let pos = entry_index_exec(&d, key.as_str());
                proof {
                    lemma_entry_index_bounds(d0, key@, 0);
                }
                let orig = match pos {
                    Some(j) => d.remove(j).1,
                    None => NaslValue::Null,
                };
                let ghost orig_g = orig;
                let new = match combine(op, &orig, right) {
                    Ok(v) => v,
                    Err(e) => {
                        return Err(e);
                    },
                };
                let returned = match order {
                    AssignOrder::AssignReturn => new.deep_clone(),
                    AssignOrder::ReturnAssign => orig,
                };
                proof {
                    lemma_equal_refl(returned);
                }
                let ghost new_g = new;
                match pos {
                    Some(j) => {
                        d.insert(j, (key, new));
                        assert(entries_view(d@) =~= entry_set(d0, text_of(idx), new_g));
                    },
                    None => {
                        d.push((key, new));
                        assert(entries_view(d@) =~= entry_set(d0, text_of(idx), new_g));
                    },
                }
                Ok(Assigned { stored: NaslValue::Dict(d), returned })
            } else {
                let i = idx.to_i64();
                if i < 0 {
                    return Err(InterpretError::NegativeIndex(i));
                }
                let ghost s = as_array(current);
                let mut arr: Vec<NaslValue> = match current {
                    NaslValue::Array(x) => x,
                    other => {
                        let mut v: Vec<NaslValue> = Vec::new();
                        v.push(other);
                        v
                    },
                };
                assert(arr@ =~= s);
                while (arr.len() as u64) <= (i as u64)
                    invariant
                        arr@.len() >= s.len(),
                        0 <= i,
                        arr@.len() > s.len() ==> arr@.len() <= i + 1,
                        arr@ == s + Seq::new((arr@.len() - s.len()) as nat, |k: int| NaslValue::Null),
                    decreases i + 1 - arr@.len(),
                {
                    arr.push(NaslValue::Null);
                    assert(arr@ =~= s + Seq::new((arr@.len() - s.len()) as nat, |k: int| NaslValue::Null));
                }
                let ghost padded_arr = arr@;
                assert(padded_arr =~= padded(s, i + 1));
                let at = i as usize;
                let orig = arr.remove(at);
                let new = match combine(op, &orig, right) {
                    Ok(v) => v,
                    Err(e) => {
                        return Err(e);
                    },
                };
                let returned = match order {
                    AssignOrder::AssignReturn => new.deep_clone(),
                    AssignOrder::ReturnAssign => orig,
                };
                proof {
                    lemma_equal_refl(returned);
                }
                let ghost new_g = new;
                arr.insert(at, new);
                assert(arr@ =~= padded_arr.update(i as int, new_g));
                Ok(Assigned { stored: NaslValue::Array(arr), returned })
            }
        },
    }
}

} // verus!
