//! The operators of NASL on values.
use crate::error::InterpretError;
use crate::token::Category;
use crate::value::{
    chars_of, equal_values, int_of, latin1, push_text, string_from_chars, text_of, truth_of,
    values_equal, NaslValue,
};
use vstd::prelude::*;

verus! {

/// Whether `r` is a string result holding `s`.
pub open spec fn gives_text(r: Result<NaslValue, InterpretError>, s: Seq<char>) -> bool {
    r is Ok && r->Ok_0 is String && r->Ok_0->String_0@ == s
}

/// The text of an optional right operand; empty when it is missing.
pub open spec fn right_text(b: Option<NaslValue>) -> Seq<char> {
    match b {
        Some(v) => text_of(v),
        None => Seq::empty(),
    }
}

/// The number of an optional right operand; 0 when it is missing.
pub open spec fn right_int(b: Option<NaslValue>) -> i64 {
    match b {
        Some(v) => int_of(v),
        None => 0,
    }
}

/// The truth of an optional right operand; false when it is missing.
pub open spec fn right_truth(b: Option<NaslValue>) -> bool {
    match b {
        Some(v) => truth_of(v),
        None => false,
    }
}

/// The first position at or after `i` where `n` occurs in `h`.
pub open spec fn find_from(h: Seq<char>, n: Seq<char>, i: int) -> Option<int>
    decreases h.len() + 1 - i,
{
    if i < 0 || i + n.len() > h.len() {
        None
    } else if h.subrange(i, i + n.len()) == n {
        Some(i)
    } else {
        find_from(h, n, i + 1)
    }
}

/// Whether `n` occurs in `h`.
pub open spec fn contains_text(h: Seq<char>, n: Seq<char>) -> bool {
    find_from(h, n, 0) is Some
}

/// `h` without the first occurrence of `n`.
pub open spec fn remove_first(h: Seq<char>, n: Seq<char>) -> Seq<char> {
    match find_from(h, n, 0) {
        Some(i) => h.subrange(0, i) + h.subrange(i + n.len(), h.len() as int),
        None => h,
    }
}

/// The magnitude of `a`.
pub open spec fn magnitude(a: int) -> int {
    if a < 0 {
        -a
    } else {
        a
    }
}

/// `a / b` rounded toward zero; `i64::MIN / -1` wraps to `i64::MIN`.
pub open spec fn quotient(a: i64, b: i64) -> i64 {
    if a == i64::MIN && b == -1 {
        i64::MIN
    } else {
        let q = magnitude(a as int) / magnitude(b as int);
        (if (a < 0) != (b < 0) {
            -q
        } else {
            q
        }) as i64
    }
}

/// The remainder that goes with `quotient`: it has the sign of `a` and a
/// magnitude below that of `b`.
pub open spec fn remainder(a: i64, b: i64) -> i64 {
    let m = magnitude(a as int) % magnitude(b as int);
    (if a < 0 {
        -m
    } else {
        m
    }) as i64
}

/// `a` to the power `e`, wrapping at 32 bits.
pub open spec fn pow32(a: u32, e: nat) -> u32
    decreases e,
{
    if e == 0 {
        1
    } else {
        a.wrapping_mul(pow32(a, (e - 1) as nat))
    }
}

/// Relies on the regex crate: `Regex::new` accepts the pattern.
pub uninterp spec fn regex_compiles(pattern: Seq<char>) -> bool;

/// Relies on the regex crate: `Regex::is_match` finds the pattern in the text.
pub uninterp spec fn regex_finds(pattern: Seq<char>, haystack: Seq<char>) -> bool;

/// Relies on `regex::Regex::new` to compile the pattern and on
/// `Regex::is_match` to search the text; `None` when the pattern does not
/// compile.
#[verifier::external_body]
fn regex_search(pattern: &str, haystack: &str) -> (r: Option<bool>)
    ensures
        r is Some == regex_compiles(pattern@),
        r is Some ==> r->Some_0 == regex_finds(pattern@, haystack@),
{
    match regex::Regex::new(pattern) {
        Ok(re) => Some(re.is_match(haystack)),
        Err(_) => None,
    }
}

/// What operator `op` gives on `a` and the optional right operand `b`.
pub open spec fn operator_result(
    op: Category,
    a: NaslValue,
    b: Option<NaslValue>,
    r: Result<NaslValue, InterpretError>,
) -> bool {
    let x = int_of(a);
    let y = right_int(b);
    match op {
        Category::Plus => match a {
            NaslValue::String(s) => gives_text(r, s@ + right_text(b)),
            NaslValue::Data(d) => gives_text(r, latin1(d@) + right_text(b)),
            _ => r == Ok::<NaslValue, InterpretError>(NaslValue::Number(x.wrapping_add(y))),
        },
        Category::Minus => match a {
            NaslValue::String(s) => gives_text(r, remove_first(s@, right_text(b))),
            NaslValue::Data(d) => gives_text(r, remove_first(latin1(d@), right_text(b))),
            _ => r == Ok::<NaslValue, InterpretError>(
                NaslValue::Number(
                    if b is Some {
                        x.wrapping_sub(y)
                    } else {
                        0i64.wrapping_sub(x)
                    },
                ),
            ),
        },
        Category::Star => r == Ok::<NaslValue, InterpretError>(NaslValue::Number(x.wrapping_mul(y))),
        Category::Slash => if y == 0 {
            r == Err::<NaslValue, InterpretError>(InterpretError::DivisionByZero)
        } else {
            r == Ok::<NaslValue, InterpretError>(NaslValue::Number(quotient(x, y)))
        },
        Category::Percent => if y == 0 {
            r == Err::<NaslValue, InterpretError>(InterpretError::DivisionByZero)
        } else {
            r == Ok::<NaslValue, InterpretError>(NaslValue::Number(remainder(x, y)))
        },
        Category::LessLess => r == Ok::<NaslValue, InterpretError>(
            NaslValue::Number(x.wrapping_shl(y as u32)),
        ),
        Category::GreaterGreater => r == Ok::<NaslValue, InterpretError>(
            NaslValue::Number(x.wrapping_shr(y as u32)),
        ),
        Category::GreaterGreaterGreater => r == Ok::<NaslValue, InterpretError>(
            NaslValue::Number((x as u32).wrapping_shr(y as u32) as i64),
        ),
        Category::Ampersand => r == Ok::<NaslValue, InterpretError>(NaslValue::Number(x & y)),
        Category::Pipe => r == Ok::<NaslValue, InterpretError>(NaslValue::Number(x | y)),
        Category::Caret => r == Ok::<NaslValue, InterpretError>(NaslValue::Number(x ^ y)),
        Category::StarStar => r == Ok::<NaslValue, InterpretError>(
            NaslValue::Number((pow32(x as u32, (y as u32) as nat) as i32) as i64),
        ),
        Category::Tilde => r == Ok::<NaslValue, InterpretError>(NaslValue::Number((-1 - x) as i64)),
        Category::EqualTilde => if regex_compiles(right_text(b)) {
            r == Ok::<NaslValue, InterpretError>(
                NaslValue::Boolean(regex_finds(right_text(b), text_of(a))),
            )
        } else {
            r is Err && r->Err_0 is UnparseableRegex && r->Err_0->UnparseableRegex_0@
                == right_text(b)
        },
        Category::BangTilde => if regex_compiles(right_text(b)) {
            r == Ok::<NaslValue, InterpretError>(
                NaslValue::Boolean(!regex_finds(right_text(b), text_of(a))),
            )
        } else {
            r is Err && r->Err_0 is UnparseableRegex && r->Err_0->UnparseableRegex_0@
                == right_text(b)
        },
        Category::GreaterLess => r == Ok::<NaslValue, InterpretError>(
            NaslValue::Boolean(contains_text(text_of(a), right_text(b))),
        ),
        Category::GreaterBangLess => r == Ok::<NaslValue, InterpretError>(
            NaslValue::Boolean(!contains_text(text_of(a), right_text(b))),
        ),
        Category::Bang => r == Ok::<NaslValue, InterpretError>(NaslValue::Boolean(!truth_of(a))),
        Category::AmpersandAmpersand => r == Ok::<NaslValue, InterpretError>(
            NaslValue::Boolean(truth_of(a) && right_truth(b)),
        ),
        Category::PipePipe => r == Ok::<NaslValue, InterpretError>(
            NaslValue::Boolean(truth_of(a) || right_truth(b)),
        ),
        Category::EqualEqual => r == Ok::<NaslValue, InterpretError>(
            NaslValue::Boolean(
                equal_values(
                    a,
                    match b {
                        Some(v) => v,
                        None => NaslValue::Null,
                    },
                ),
            ),
        ),
        Category::BangEqual => r == Ok::<NaslValue, InterpretError>(
            NaslValue::Boolean(
                !equal_values(
                    a,
                    match b {
                        Some(v) => v,
                        None => NaslValue::Null,
                    },
                ),
            ),
        ),
        Category::Greater => r == Ok::<NaslValue, InterpretError>(NaslValue::Boolean(x > y)),
        Category::Less => r == Ok::<NaslValue, InterpretError>(NaslValue::Boolean(x < y)),
        Category::GreaterEqual => r == Ok::<NaslValue, InterpretError>(NaslValue::Boolean(x >= y)),
        Category::LessEqual => r == Ok::<NaslValue, InterpretError>(NaslValue::Boolean(x <= y)),
        _ => r == Err::<NaslValue, InterpretError>(InterpretError::WrongCategory),
    }
}


fn matches_at(h: &Vec<char>, n: &Vec<char>, i: usize) -> (r: bool)
    requires
        i + n@.len() <= h@.len(),
    ensures
        r == (h@.subrange(i as int, i + n@.len()) == n@),
{
    let hl = h.len();
    let mut j: usize = 0;
    while j < n.len()
        invariant
            hl == h@.len(),
            i + n@.len() <= h@.len(),
            j <= n@.len(),
            forall|k: int| 0 <= k < j ==> h@[i + k] == n@[k],
        decreases n@.len() - j,
    {
        assert(i + j < h@.len());
        if h[i + j] != n[j] {
            assert(h@.subrange(i as int, i + n@.len())[j as int] != n@[j as int]);
            return false;
        }
        j = j + 1;
    }
    assert(h@.subrange(i as int, i + n@.len()) =~= n@);
    true
}

proof fn lemma_find_from_bounds(h: Seq<char>, n: Seq<char>, k: int)
    ensures
        find_from(h, n, k) is Some ==> k <= find_from(h, n, k)->Some_0 && find_from(
            h,
            n,
            k,
        )->Some_0 + n.len() <= h.len(),
    decreases h.len() + 1 - k,
{
    if !(k < 0 || k + n.len() > h.len()) && h.subrange(k, k + n.len()) != n {
        lemma_find_from_bounds(h, n, k + 1);
    }
}

/// The first position where `n` occurs in `h`.
fn find_exec(h: &Vec<char>, n: &Vec<char>) -> (r: Option<usize>)
    ensures
        match find_from(h@, n@, 0) {
            Some(i) => r == Some(i as usize),
            None => r is None,
        },
{
    proof {
        lemma_find_from_bounds(h@, n@, 0);
    }
    if n.len() == 0 {
        assert(h@.subrange(0, 0) =~= n@);
        return Some(0);
    }
    if n.len() > h.len() {
        return None;
    }
    let mut i: usize = 0;
    while i <= h.len() - n.len()
        invariant
            1 <= n@.len() <= h@.len(),
            i <= h@.len(),
            find_from(h@, n@, 0) == find_from(h@, n@, i as int),
        decreases h@.len() + 1 - i,
    {
        if matches_at(h, n, i) {
            return Some(i);
        }
        i = i + 1;
    }
    None
}

/// `h` without the first occurrence of `n`.
fn remove_first_exec(h: &Vec<char>, n: &Vec<char>) -> (r: Vec<char>)
    ensures
        r@ == remove_first(h@, n@),
{
    proof {
        lemma_find_from_bounds(h@, n@, 0);
    }
    match find_exec(h, n) {
        Some(i) => {
            let mut r: Vec<char> = Vec::new();
            let mut j: usize = 0;
            while j < i
                invariant
                    i + n@.len() <= h@.len(),
                    j <= i,
                    r@ == h@.subrange(0, j as int),
                decreases i - j,
            {
                r.push(h[j]);
                j = j + 1;
            }
            let hl = h.len();
            assert(i + n@.len() <= hl);
            let mut k: usize = i + n.len();
            while k < h.len()
                invariant
                    i + n@.len() <= k <= h@.len(),
                    r@ == h@.subrange(0, i as int) + h@.subrange(i + n@.len(), k as int),
                decreases h@.len() - k,
            {
                r.push(h[k]);
                k = k + 1;
                assert(r@ =~= h@.subrange(0, i as int) + h@.subrange(i + n@.len(), k as int));
            }
            r
        },
        None => {
            let mut r: Vec<char> = Vec::new();
            let mut j: usize = 0;
            while j < h.len()
                invariant
                    j <= h@.len(),
                    r@ == h@.subrange(0, j as int),
                decreases h@.len() - j,
            {
                r.push(h[j]);
                j = j + 1;
            }
            assert(r@ =~= h@);
            r
        },
    }
}

pub(crate) fn quotient_exec(a: i64, b: i64) -> (r: i64)
    requires
        b != 0,
    ensures
        r == quotient(a, b),
{
    if a == i64::MIN && b == -1 {
        return i64::MIN;
    }
    let ua: u64 = if a < 0 {
        (0i128 - a as i128) as u64
    } else {
        a as u64
    };
    let ub: u64 = if b < 0 {
        (0i128 - b as i128) as u64
    } else {
        b as u64
    };
    let q = ua / ub;
    assert(q <= ua) by (nonlinear_arith)
        requires
            ub >= 1,
            q == ua / ub,
    ;
    if (a < 0) != (b < 0) {
        (0i128 - q as i128) as i64
    } else {
        if a == i64::MIN {
            assert(ub >= 2);
            assert(q <= 0x4000_0000_0000_0000u64) by (nonlinear_arith)
                requires
                    q == ua / ub,
                    ub >= 2,
                    ua == 0x8000_0000_0000_0000u64,
            ;
        }
        q as i64
    }
}

pub(crate) fn remainder_exec(a: i64, b: i64) -> (r: i64)
    requires
        b != 0,
    ensures
        r == remainder(a, b),
{
    let ua: u64 = if a < 0 {
        (0i128 - a as i128) as u64
    } else {
        a as u64
    };
    let ub: u64 = if b < 0 {
        (0i128 - b as i128) as u64
    } else {
        b as u64
    };
    let m = ua % ub;
    assert(m < ub);
    if a < 0 {
        (0i128 - m as i128) as i64
    } else {
        m as i64
    }
}

fn pow32_exec(a: u32, e: u32) -> (r: u32)
    ensures
        r == pow32(a, e as nat),
{
    let mut acc: u32 = 1;
    let mut i: u32 = 0;
    while i < e
        invariant
            i <= e,
            acc == pow32(a, i as nat),
        decreases e - i,
    {
        acc = a.wrapping_mul(acc);
        i = i + 1;
    }
    acc
}

pub(crate) fn text_chars(v: &NaslValue) -> (r: Vec<char>)
    ensures
        r@ == text_of(*v),
{
    let mut out: Vec<char> = Vec::new();
    push_text(&mut out, v);
    assert(out@ =~= text_of(*v));
    out
}

fn right_text_exec(b: &Option<NaslValue>) -> (r: Vec<char>)
    ensures
        r@ == right_text(*b),
{
    match b {
        Some(v) => text_chars(v),
        None => Vec::new(),
    }
}

fn right_int_exec(b: &Option<NaslValue>) -> (r: i64)
    ensures
        r == right_int(*b),
{
    match b {
        Some(v) => v.to_i64(),
        None => 0,
    }
}

fn right_truth_exec(b: &Option<NaslValue>) -> (r: bool)
    ensures
        r == right_truth(*b),
{
    match b {
        Some(v) => v.to_bool(),
        None => false,
    }
}

fn append_chars(x: &mut Vec<char>, y: &Vec<char>)
    ensures
        final(x)@ == old(x)@ + y@,
{
    let mut i: usize = 0;
    while i < y.len()
        invariant
            i <= y@.len(),
            x@ == old(x)@ + y@.subrange(0, i as int),
        decreases y@.len() - i,
    {
        x.push(y[i]);
        i = i + 1;
        assert(x@ =~= old(x)@ + y@.subrange(0, i as int));
    }
    assert(y@.subrange(0, y@.len() as int) =~= y@);
}

/// Whether the text of `a` matches the pattern that is the text of `b`.
pub fn match_regex(a: &NaslValue, b: &Option<NaslValue>) -> (r: Result<NaslValue, InterpretError>)
    ensures
        if regex_compiles(right_text(*b)) {
            r == Ok::<NaslValue, InterpretError>(
                NaslValue::Boolean(regex_finds(right_text(*b), text_of(*a))),
            )
        } else {
            r is Err && r->Err_0 is UnparseableRegex && r->Err_0->UnparseableRegex_0@
                == right_text(*b)
        },
{
    let pattern = string_from_chars(&right_text_exec(b));
    let haystack = string_from_chars(&text_chars(a));
    match regex_search(pattern.as_str(), haystack.as_str()) {
        Some(found) => Ok(NaslValue::Boolean(found)),
        None => Err(InterpretError::UnparseableRegex(pattern)),
    }
}

/// Whether the text of `a` does not match the pattern that is the text of `b`.
pub fn not_match_regex(a: &NaslValue, b: &Option<NaslValue>) -> (r: Result<NaslValue, InterpretError>)
    ensures
        if regex_compiles(right_text(*b)) {
            r == Ok::<NaslValue, InterpretError>(
                NaslValue::Boolean(!regex_finds(right_text(*b), text_of(*a))),
            )
        } else {
            r is Err && r->Err_0 is UnparseableRegex && r->Err_0->UnparseableRegex_0@
                == right_text(*b)
        },
{
    match match_regex(a, b) {
        Ok(v) => Ok(NaslValue::Boolean(!v.to_bool())),
        Err(e) => Err(e),
    }
}

/// Both operands read as numbers; a missing right operand reads as 0.
pub fn as_i64(left: &NaslValue, right: &Option<NaslValue>) -> (r: (i64, i64))
    ensures
        r == (int_of(*left), right_int(*right)),
{
    (left.to_i64(), right_int_exec(right))
}

/// Applies operator `op` to `a` and, for a binary operator, `b`.
pub fn operate(op: &Category, a: NaslValue, b: Option<NaslValue>) -> (r: Result<
    NaslValue,
    InterpretError,
>)
    ensures
        operator_result(*op, a, b, r),
{
    let (x, y) = as_i64(&a, &b);
    match op {
        Category::Plus => match &a {
            NaslValue::String(_) | NaslValue::Data(_) => {
                let mut t = text_chars(&a);
                append_chars(&mut t, &right_text_exec(&b));
                Ok(NaslValue::String(string_from_chars(&t)))
            },
            _ => Ok(NaslValue::Number(x.wrapping_add(y))),
        },
        Category::Minus => match &a {
            NaslValue::String(_) | NaslValue::Data(_) => {
                let t = remove_first_exec(&text_chars(&a), &right_text_exec(&b));
                Ok(NaslValue::String(string_from_chars(&t)))
            },
            _ => {
                if b.is_some() {
                    Ok(NaslValue::Number(x.wrapping_sub(y)))
                } else {
                    Ok(NaslValue::Number(0i64.wrapping_sub(x)))
                }
            },
        },
        Category::Star => Ok(NaslValue::Number(x.wrapping_mul(y))),
        Category::Slash => if y == 0 {
            Err(InterpretError::DivisionByZero)
        } else {
            Ok(NaslValue::Number(quotient_exec(x, y)))
        },
        Category::Percent => if y == 0 {
            Err(InterpretError::DivisionByZero)
        } else {
            Ok(NaslValue::Number(remainder_exec(x, y)))
        },
        Category::LessLess => Ok(NaslValue::Number(x.wrapping_shl(#[verifier::truncate] (y as u32)))),
        Category::GreaterGreater => Ok(
            NaslValue::Number(x.wrapping_shr(#[verifier::truncate] (y as u32))),
        ),
        Category::GreaterGreaterGreater => {
            let shifted: u32 = (#[verifier::truncate] (x as u32)).wrapping_shr(
                #[verifier::truncate] (y as u32),
            );
            Ok(NaslValue::Number(shifted as i64))
        },
        Category::Ampersand => Ok(NaslValue::Number(x & y)),
        Category::Pipe => Ok(NaslValue::Number(x | y)),
        Category::Caret => Ok(NaslValue::Number(x ^ y)),
        Category::StarStar => {
            let p = pow32_exec(#[verifier::truncate] (x as u32), #[verifier::truncate] (y as u32));
            Ok(NaslValue::Number((#[verifier::truncate] (p as i32)) as i64))
        },
        Category::Tilde => Ok(NaslValue::Number(-1 - x)),
        Category::EqualTilde => match_regex(&a, &b),
        Category::BangTilde => not_match_regex(&a, &b),
        Category::GreaterLess => {
            let found = find_exec(&text_chars(&a), &right_text_exec(&b));
            Ok(NaslValue::Boolean(found.is_some()))
        },
        Category::GreaterBangLess => {
            let found = find_exec(&text_chars(&a), &right_text_exec(&b));
            Ok(NaslValue::Boolean(found.is_none()))
        },
        Category::Bang => Ok(NaslValue::Boolean(!a.to_bool())),
        Category::AmpersandAmpersand => {
            let l = a.to_bool();
            let r = right_truth_exec(&b);
            Ok(NaslValue::Boolean(l && r))
        },
        Category::PipePipe => {
            let l = a.to_bool();
            let r = right_truth_exec(&b);
            Ok(NaslValue::Boolean(l || r))
        },
        Category::EqualEqual => {
            let right = match b {
                Some(v) => v,
                None => NaslValue::Null,
            };
            Ok(NaslValue::Boolean(values_equal(&a, &right)))
        },
        Category::BangEqual => {
            let right = match b {
                Some(v) => v,
                None => NaslValue::Null,
            };
            Ok(NaslValue::Boolean(!values_equal(&a, &right)))
        },
        Category::Greater => Ok(NaslValue::Boolean(x > y)),
        Category::Less => Ok(NaslValue::Boolean(x < y)),
        Category::GreaterEqual => Ok(NaslValue::Boolean(x >= y)),
        Category::LessEqual => Ok(NaslValue::Boolean(x <= y)),
        _ => Err(InterpretError::WrongCategory),
    }
}

} // verus!
