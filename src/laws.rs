//! Properties of the tokenizer, the coercions and assignment, stated over the
//! specifications of the functions they relate and proved.
use crate::assign::{
    as_array, as_dict, assignment, combined, entries_view, entry_index, entry_set, keyed, padded,
    Assigned,
};
use crate::error::InterpretError;
use crate::operator::operator_result;
use crate::statement::AssignOrder;
use crate::token::{
    digits_value, is_digit_of, lemma_scan_bounds, lexes, lexes_run, number_lexes, radix_spec,
    quote_of, scan, scan_quoted, tok, Base, ByteClass, Category, StringCategory, Token, UnclosedCategory,
};
use crate::value::{decimal, digit_char, equal_values, int_of, nat_digits, text_of, truth_of, NaslValue};
use vstd::prelude::*;

verus! {

/// Reading a number as a number gives it back.
pub proof fn law_number_reads_as_itself(n: i64)
    ensures
        int_of(NaslValue::Number(n)) == n,
{
}

/// A string is true exactly when it is neither empty nor `"0"`.
pub proof fn law_string_truth(s: String)
    ensures
        truth_of(NaslValue::String(s)) == (s@ != Seq::<char>::empty() && s@ != seq!['0']),
{
}

/// On a value that is neither a string nor a byte buffer, `a += b` stores what
/// `a + b` gives.
pub proof fn law_compound_plus(a: NaslValue, b: NaslValue, r: Result<NaslValue, InterpretError>)
    requires
        !(a is String || a is Data),
        operator_result(Category::Plus, a, Some(b), r),
    ensures
        combined(Category::PlusEqual, a, b) == r,
{
}

/// Postfix `a++` gives back the previous value and stores its successor.
pub proof fn law_postfix_increment(current: NaslValue, res: Result<Assigned, InterpretError>)
    requires
        assignment(Category::PlusPlus, AssignOrder::ReturnAssign, current, None, NaslValue::Null, res),
    ensures
        res is Ok,
        res->Ok_0.stored == NaslValue::Number(int_of(current).wrapping_add(1)),
        equal_values(res->Ok_0.returned, current),
{
}

/// Prefix `++a` stores the successor and gives it back.
pub proof fn law_prefix_increment(current: NaslValue, res: Result<Assigned, InterpretError>)
    requires
        assignment(Category::PlusPlus, AssignOrder::AssignReturn, current, None, NaslValue::Null, res),
    ensures
        res is Ok,
        res->Ok_0.stored == NaslValue::Number(int_of(current).wrapping_add(1)),
        equal_values(res->Ok_0.returned, NaslValue::Number(int_of(current).wrapping_add(1))),
{
}

/// Writing at index `i` of an array no longer than `i` keeps its elements,
/// fills the gap with `Null` and puts the value last.
pub proof fn law_write_past_end(
    current: NaslValue,
    i: i64,
    right: NaslValue,
    res: Result<Assigned, InterpretError>,
)
    requires
        current is Array,
        current->Array_0@.len() <= i,
        assignment(
            Category::Equal,
            AssignOrder::AssignReturn,
            current,
            Some(NaslValue::Number(i)),
            right,
            res,
        ),
    ensures
        res is Ok,
        res->Ok_0.stored is Array,
        res->Ok_0.stored->Array_0@.len() == i + 1,
        forall|k: int|
            0 <= k < current->Array_0@.len() ==> res->Ok_0.stored->Array_0@[k]
                == current->Array_0@[k],
        forall|k: int|
            current->Array_0@.len() <= k < i ==> res->Ok_0.stored->Array_0@[k] == NaslValue::Null,
        res->Ok_0.stored->Array_0@[i as int] == right,
{
    let s = as_array(current);
    assert(padded(s, i + 1).len() == i + 1);
}

/// Writing at index `i` of a value that is neither array, dictionary nor
/// `Null` keeps the value as element 0.
pub proof fn law_scalar_becomes_first_element(
    current: NaslValue,
    i: i64,
    right: NaslValue,
    res: Result<Assigned, InterpretError>,
)
    requires
        !(current is Array || current is Dict),
        1 <= i,
        assignment(
            Category::Equal,
            AssignOrder::AssignReturn,
            current,
            Some(NaslValue::Number(i)),
            right,
            res,
        ),
    ensures
        res is Ok,
        res->Ok_0.stored is Array,
        res->Ok_0.stored->Array_0@.len() == i + 1,
        res->Ok_0.stored->Array_0@[0] == current,
        res->Ok_0.stored->Array_0@[i as int] == right,
{
}

proof fn lemma_scan_digits_to_end(code: Seq<u8>, from: int, base: Base)
    requires
        0 <= from <= code.len(),
        forall|k: int| from <= k < code.len() ==> is_digit_of(base, #[trigger] code[k]),
    ensures
        scan(code, from, ByteClass::Digit(base)) == code.len(),
    decreases code.len() - from,
{
    if from < code.len() {
        lemma_scan_digits_to_end(code, from + 1, base);
    }
}

/// The characters that introduce a literal of `base`.
pub open spec fn base_prefix(base: Base) -> Seq<u8> {
    match base {
        Base::Binary => seq!['0' as u8, 'b' as u8],
        Base::Hex => seq!['0' as u8, 'x' as u8],
        Base::Octal => seq!['0' as u8],
        Base::Base10 => Seq::empty(),
    }
}

/// A non-negative number written in its base, with the base's prefix, reads
/// back as that number, in one token that covers the whole literal. A decimal literal has no leading zero.
pub proof fn law_number_round_trip(base: Base, digits: Seq<u8>)
    requires
        digits.len() >= 1,
        forall|k: int| 0 <= k < digits.len() ==> is_digit_of(base, #[trigger] digits[k]),
        digits_value(digits, radix_spec(base) as int) <= i64::MAX,
        base == Base::Base10 ==> digits[0] != '0' as u8 || digits.len() == 1,
    ensures
        ({
            let code = base_prefix(base) + digits;
            let p = base_prefix(base).len() as int;
            number_lexes(
                code,
                0,
                tok(
                    Category::Number(digits_value(digits, radix_spec(base) as int) as i64),
                    0,
                    code.len() as int,
                ),
                code.len() as int,
            )
        }),
{
    let code = base_prefix(base) + digits;
    let p = base_prefix(base).len() as int;
    assert(code.subrange(p, code.len() as int) =~= digits);
    assert forall|k: int| p <= k < code.len() implies is_digit_of(base, #[trigger] code[k]) by {
        assert(code[k] == digits[k - p]);
    }
    lemma_scan_digits_to_end(code, p, base);
    if base == Base::Base10 {
        if digits.len() > 1 {
            assert forall|k: int| 1 <= k < code.len() implies is_digit_of(
                Base::Base10,
                #[trigger] code[k],
            ) by {}
            lemma_scan_digits_to_end(code, 1, Base::Base10);
        } else {
            lemma_scan_digits_to_end(code, 1, Base::Base10);
        }
    }
    if base == Base::Octal {
        assert(code[1] == digits[0]);
    }
}

/// A literal whose quote never recurs gives an `Unclosed` token of its kind
/// that covers the rest of the source.
pub proof fn law_unclosed_string(code: Seq<u8>, kind: StringCategory, t: Token, next: int)
    requires
        code.len() >= 1,
        code[0] == quote_of(kind),
        forall|k: int| 1 <= k < code.len() ==> code[k] != quote_of(kind),
        lexes(code, 0, t, next),
    ensures
        t.category == Category::Unclosed(UnclosedCategory::String(kind)),
        t.position == (0usize, code.len() as usize),
        next == code.len(),
{
    lemma_scan_no_quote(code, 1, false, quote_of(kind));
}

proof fn lemma_scan_no_quote(code: Seq<u8>, from: int, escaped: bool, quote: u8)
    requires
        0 <= from <= code.len(),
        forall|k: int| from <= k < code.len() ==> code[k] != quote,
    ensures
        scan_quoted(code, from, escaped, quote) == code.len(),
    decreases code.len() - from,
{
    if from < code.len() {
        lemma_scan_no_quote(code, from + 1, !escaped && code[from] == '\\' as u8, quote);
    }
}

proof fn lemma_scan_quoted_bounds(code: Seq<u8>, from: int, escaped: bool, quote: u8)
    requires
        0 <= from <= code.len(),
    ensures
        from <= scan_quoted(code, from, escaped, quote) <= code.len(),
    decreases code.len() - from,
{
    if from < code.len() && !(!escaped && code[from] == quote) {
        lemma_scan_quoted_bounds(code, from + 1, !escaped && code[from] == '\\' as u8, quote);
    }
}

/// Every token but the repeat operator and a name covers exactly the bytes read
/// for it: literals with their quotes and base prefixes included.
#[verifier::rlimit(50)]
pub proof fn law_exact_span(code: Seq<u8>, start: int, t: Token, next: int)
    requires
        0 <= start < code.len(),
        code.len() <= usize::MAX,
        lexes(code, start, t, next),
        !(t.category is X || t.category is Identifier),
    ensures
        t.position.0 == start && t.position.1 == next,
{
    law_token_span(code, start, t, next);
}

/// A token read at `start` lies within the source, after `start`, and reading
/// goes on after it.
#[verifier::rlimit(100)]
pub proof fn law_token_span(code: Seq<u8>, start: int, t: Token, next: int)
    requires
        0 <= start < code.len(),
        code.len() <= usize::MAX,
        lexes(code, start, t, next),
    ensures
        start <= t.position.0 <= t.position.1 <= next <= code.len(),
        start < next,
{
    let p = start + 1;
    lemma_scan_bounds(code, p, ByteClass::NotNewline);
    lemma_scan_quoted_bounds(code, p, false, '"' as u8);
    lemma_scan_quoted_bounds(code, p, false, '\'' as u8);
    lemma_scan_bounds(code, p, ByteClass::IdentChar);
    let e = scan(code, p, ByteClass::IdentChar);
    crate::token::lemma_skip_space_bounds(code, e);
    if p <= code.len() {
        lemma_scan_bounds(code, p, ByteClass::Digit(Base::Base10));
        lemma_scan_bounds(code, p, ByteClass::Digit(Base::Octal));
    }
    if p + 1 <= code.len() {
        lemma_scan_bounds(code, p + 1, ByteClass::Digit(Base::Binary));
        lemma_scan_bounds(code, p + 1, ByteClass::Digit(Base::Hex));
    }
    let d = scan(code, p, ByteClass::Digit(Base::Base10));
    if d + 1 <= code.len() {
        lemma_scan_bounds(code, d + 1, ByteClass::Digit(Base::Base10));
        let e1 = scan(code, d + 1, ByteClass::Digit(Base::Base10));
        if e1 + 1 <= code.len() {
            lemma_scan_bounds(code, e1 + 1, ByteClass::Digit(Base::Base10));
            let e2 = scan(code, e1 + 1, ByteClass::Digit(Base::Base10));
            if e2 + 1 <= code.len() {
                lemma_scan_bounds(code, e2 + 1, ByteClass::Digit(Base::Base10));
            }
        }
    }
}

/// The tokens of a run come in order: each one ends before the next begins,
/// and all lie between where reading started and where it stopped.
pub proof fn law_spans_in_order(code: Seq<u8>, from: int, toks: Seq<Token>, to: int)
    requires
        0 <= from <= code.len(),
        code.len() <= usize::MAX,
        lexes_run(code, from, toks, to),
    ensures
        from <= to <= code.len(),
        forall|i: int| 0 <= i < toks.len() ==> from <= #[trigger] toks[i].position.0 <= toks[i].position.1 <= to,
        forall|i: int, j: int| 0 <= i < j < toks.len() ==> #[trigger] toks[i].position.1 <= #[trigger] toks[j].position.0,
    decreases toks.len(),
{
    if toks.len() > 0 {
        let mid = choose|mid: int|
            #![trigger crate::token::skip_space(code, mid)]
            lexes_run(code, from, toks.drop_last(), mid) && crate::token::skip_space(code, mid)
                < code.len() && lexes(code, crate::token::skip_space(code, mid), toks.last(), to);
        let prefix = toks.drop_last();
        law_spans_in_order(code, from, prefix, mid);
        let ws = crate::token::skip_space(code, mid);
        crate::token::lemma_skip_space_bounds(code, mid);
        law_token_span(code, ws, toks.last(), to);
        let last = toks.len() - 1;
        assert(toks[last] == toks.last());
        assert forall|i: int| 0 <= i < last implies #[trigger] toks[i].position.1 <= mid by {
            assert(toks[i] == prefix[i]);
            assert(from <= prefix[i].position.0);
        }
        assert forall|i: int| 0 <= i < toks.len() implies from <= #[trigger] toks[i].position.0
            <= toks[i].position.1 <= to by {
            if i < last {
                assert(toks[i] == prefix[i]);
            }
        }
        assert forall|i: int, j: int| 0 <= i < j < toks.len() implies #[trigger] toks[i].position.1
            <= #[trigger] toks[j].position.0 by {
            if j < last {
                assert(toks[i] == prefix[i]);
                assert(toks[j] == prefix[j]);
                assert(prefix[i].position.1 <= prefix[j].position.0);
            } else {
                assert(toks[i].position.1 <= mid);
                assert(toks[j].position.0 >= ws);
            }
        }
    }
}


/// Whether no key occurs twice among the entries.
pub open spec fn unique_keys(d: Seq<(Seq<char>, NaslValue)>) -> bool {
    forall|i: int, j: int| 0 <= i < j < d.len() ==> #[trigger] d[i].0 != #[trigger] d[j].0
}

proof fn lemma_nat_digits_len(n: nat)
    ensures
        nat_digits(n).len() >= 1,
        n >= 10 ==> nat_digits(n).len() >= 2,
    decreases n,
{
    if n >= 10 {
        lemma_nat_digits_len(n / 10);
    }
}

proof fn lemma_nat_digits_injective(n: nat, m: nat)
    requires
        nat_digits(n) == nat_digits(m),
    ensures
        n == m,
    decreases n,
{
    lemma_nat_digits_len(n);
    lemma_nat_digits_len(m);
    if n < 10 && m < 10 {
        assert(nat_digits(n)[0] == digit_char(n));
        assert(nat_digits(m)[0] == digit_char(m));
    } else if n >= 10 && m >= 10 {
        let a = nat_digits(n / 10);
        let b = nat_digits(m / 10);
        assert(nat_digits(n).drop_last() =~= a);
        assert(nat_digits(m).drop_last() =~= b);
        assert(nat_digits(n).last() == digit_char(n % 10));
        assert(nat_digits(m).last() == digit_char(m % 10));
        lemma_nat_digits_injective(n / 10, m / 10);
    } else {
        lemma_nat_digits_len(n / 10);
        lemma_nat_digits_len(m / 10);
        if n < 10 {
            assert(nat_digits(n).len() == 1);
        } else {
            assert(nat_digits(m).len() == 1);
        }
    }
}

proof fn lemma_entry_index_none(d: Seq<(Seq<char>, NaslValue)>, key: Seq<char>, i: int)
    requires
        0 <= i,
        entry_index(d, key, i) is None,
    ensures
        forall|k: int| i <= k < d.len() ==> #[trigger] d[k].0 != key,
    decreases d.len() - i,
{
    if i < d.len() {
        lemma_entry_index_none(d, key, i + 1);
    }
}

/// The entries a value turns into when written through a key have unique keys,
/// if a dictionary's do.
pub proof fn law_as_dict_unique(v: NaslValue)
    requires
        v is Dict ==> unique_keys(entries_view(v->Dict_0@)),
    ensures
        unique_keys(as_dict(v)),
{
    if v is Array {
        let x = v->Array_0@;
        assert forall|i: int, j: int| 0 <= i < j < as_dict(v).len() implies #[trigger] as_dict(
            v,
        )[i].0 != #[trigger] as_dict(v)[j].0 by {
            if decimal(i) == decimal(j) {
                lemma_nat_digits_injective(i as nat, j as nat);
            }
        }
    }
}

/// Writing a dictionary entry keeps its keys unique.
pub proof fn law_entry_set_unique(d: Seq<(Seq<char>, NaslValue)>, key: Seq<char>, v: NaslValue)
    requires
        unique_keys(d),
    ensures
        unique_keys(entry_set(d, key, v)),
{
    crate::assign::lemma_entry_index_bounds(d, key, 0);
    if entry_index(d, key, 0) is None {
        lemma_entry_index_none(d, key, 0);
        let e = entry_set(d, key, v);
        assert forall|i: int, j: int| 0 <= i < j < e.len() implies #[trigger] e[i].0 != #[trigger] e[j].0 by {
            if j == d.len() {
                assert(e[i] == d[i]);
            } else {
                assert(e[i] == d[i] && e[j] == d[j]);
            }
        }
    }
}

/// A write through a key leaves a dictionary whose keys are unique, when the
/// variable held a dictionary with unique keys or no dictionary.
pub proof fn law_assignment_keeps_keys_unique(
    op: Category,
    order: AssignOrder,
    current: NaslValue,
    idx: NaslValue,
    right: NaslValue,
    res: Result<Assigned, InterpretError>,
)
    requires
        current is Dict ==> unique_keys(entries_view(current->Dict_0@)),
        keyed(current, idx),
        assignment(op, order, current, Some(idx), right, res),
        res is Ok,
    ensures
        res->Ok_0.stored is Dict,
        unique_keys(entries_view(res->Ok_0.stored->Dict_0@)),
{
    law_as_dict_unique(current);
    let d = as_dict(current);
    let key = text_of(idx);
    let orig = crate::assign::entry_value(d, key);
    let new = combined(op, orig, right)->Ok_0;
    law_entry_set_unique(d, key, new);
}

} // verus!
