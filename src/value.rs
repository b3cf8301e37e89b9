//! The dynamic values of NASL and the coercions between them.
use crate::error::FunctionErrorKind;
use crate::token::ACT;
use vstd::prelude::*;
use vstd::string::StrSliceExecFns;

verus! {

/// A value of a NASL program.
#[derive(Debug, PartialEq, Eq)]
pub enum NaslValue {
    /// A string of text
    String(String),
    /// A buffer of bytes
    Data(Vec<u8>),
    /// A number
    Number(i64),
    /// A dense array; a slot never written holds `Null`
    Array(Vec<NaslValue>),
    /// A mapping from string keys to values; no key occurs twice
    Dict(Vec<(String, NaslValue)>),
    /// A truth value
    Boolean(bool),
    /// A scanning phase
    AttackCategory(ACT),
    /// The absence of a value
    Null,
    /// The script ends with this code
    Exit(i64),
    /// A function returns this value
    Return(Box<NaslValue>),
    /// The innermost loop ends
    Break,
}

/// The number of a scanning phase.
pub open spec fn act_ordinal(c: ACT) -> i64 {
    match c {
        ACT::Init => 0,
        ACT::Scanner => 1,
        ACT::Settings => 2,
        ACT::GatherInfo => 3,
        ACT::Attack => 4,
        ACT::MixedAttack => 5,
        ACT::DestructiveAttack => 6,
        ACT::Denial => 7,
        ACT::KillHost => 8,
        ACT::Flood => 9,
        ACT::End => 10,
    }
}

/// A value read as a number.
pub open spec fn int_of(v: NaslValue) -> i64 {
    match v {
        NaslValue::Null => 0,
        NaslValue::Number(n) => n,
        NaslValue::Boolean(b) => if b {
            1
        } else {
            0
        },
        NaslValue::Exit(n) => n,
        NaslValue::String(_) => 1,
        NaslValue::Data(_) => 1,
        NaslValue::Array(_) => 1,
        NaslValue::Dict(_) => 1,
        NaslValue::AttackCategory(c) => act_ordinal(c),
        NaslValue::Return(_) => 0,
        NaslValue::Break => 0,
    }
}

/// A value read as a truth value.
pub open spec fn truth_of(v: NaslValue) -> bool {
    match v {
        NaslValue::Null => false,
        NaslValue::Boolean(b) => b,
        NaslValue::Number(n) => n != 0,
        NaslValue::Exit(n) => n != 0,
        NaslValue::String(s) => s@ != Seq::<char>::empty() && s@ != seq!['0'],
        NaslValue::Data(b) => b@.len() > 0,
        NaslValue::Array(a) => a@.len() > 0,
        NaslValue::Dict(d) => d@.len() > 0,
        NaslValue::AttackCategory(_) => true,
        NaslValue::Return(_) => false,
        NaslValue::Break => false,
    }
}

/// The character of a decimal digit.
pub open spec fn digit_char(d: nat) -> char {
    if d == 0 {
        '0'
    } else if d == 1 {
        '1'
    } else if d == 2 {
        '2'
    } else if d == 3 {
        '3'
    } else if d == 4 {
        '4'
    } else if d == 5 {
        '5'
    } else if d == 6 {
        '6'
    } else if d == 7 {
        '7'
    } else if d == 8 {
        '8'
    } else {
        '9'
    }
}

/// The decimal digits of `n`.
pub open spec fn nat_digits(n: nat) -> Seq<char>
    decreases n,
{
    if n < 10 {
        seq![digit_char(n)]
    } else {
        nat_digits(n / 10) + seq![digit_char(n % 10)]
    }
}

/// `n` written in decimal, with a leading `-` when negative.
pub open spec fn decimal(n: int) -> Seq<char> {
    if n < 0 {
        seq!['-'] + nat_digits((-n) as nat)
    } else {
        nat_digits(n as nat)
    }
}

/// Bytes read one character per byte.
pub open spec fn latin1(b: Seq<u8>) -> Seq<char> {
    b.map_values(|x: u8| x as char)
}

/// The name of a scanning phase.
pub open spec fn act_name(c: ACT) -> Seq<char> {
    match c {
        ACT::Init => "ACT_INIT"@,
        ACT::Scanner => "ACT_SCANNER"@,
        ACT::Settings => "ACT_SETTINGS"@,
        ACT::GatherInfo => "ACT_GATHER_INFO"@,
        ACT::Attack => "ACT_ATTACK"@,
        ACT::MixedAttack => "ACT_MIXED_ATTACK"@,
        ACT::DestructiveAttack => "ACT_DESTRUCTIVE_ATTACK"@,
        ACT::Denial => "ACT_DENIAL"@,
        ACT::KillHost => "ACT_KILL_HOST"@,
        ACT::Flood => "ACT_FLOOD"@,
        ACT::End => "ACT_END"@,
    }
}

/// The text of a value: what string operators and dictionary keys see.
pub open spec fn text_of(v: NaslValue) -> Seq<char>
    decreases v, 0nat,
{
    match v {
        NaslValue::String(s) => s@,
        NaslValue::Data(b) => latin1(b@),
        NaslValue::Number(n) => decimal(n as int),
        NaslValue::Array(a) => items_text(a@, a@.len() as int),
        NaslValue::Dict(d) => entries_text(d@, d@.len() as int),
        NaslValue::Boolean(b) => if b {
            "true"@
        } else {
            "false"@
        },
        NaslValue::Null => seq!['\0'],
        NaslValue::Exit(n) => "exit("@ + decimal(n as int) + ")"@,
        NaslValue::AttackCategory(c) => act_name(c),
        NaslValue::Return(_) => Seq::empty(),
        NaslValue::Break => Seq::empty(),
    }
}

/// `i: text` for the first `n` elements of an array, joined by `,`.
pub open spec fn items_text(a: Seq<NaslValue>, n: int) -> Seq<char>
    decreases a, n,
{
    if n <= 0 || n > a.len() {
        Seq::empty()
    } else {
        let item = decimal(n - 1) + ": "@ + text_of(a[n - 1]);
        if n == 1 {
            item
        } else {
            items_text(a, n - 1) + ","@ + item
        }
    }
}

/// `key: text` for the first `n` entries of a dictionary, joined by `,`.
pub open spec fn entries_text(d: Seq<(String, NaslValue)>, n: int) -> Seq<char>
    decreases d, n,
{
    if n <= 0 || n > d.len() {
        Seq::empty()
    } else {
        let item = d[n - 1].0@ + ": "@ + text_of(d[n - 1].1);
        if n == 1 {
            item
        } else {
            entries_text(d, n - 1) + ","@ + item
        }
    }
}


/// Whether two values are equal: strings and buffers by content, arrays element
/// by element and in order, dictionaries by key whatever the order.
pub open spec fn equal_values(a: NaslValue, b: NaslValue) -> bool
    decreases a, 0nat,
{
    match (a, b) {
        (NaslValue::String(x), NaslValue::String(y)) => x@ == y@,
        (NaslValue::Data(x), NaslValue::Data(y)) => x@ == y@,
        (NaslValue::Number(x), NaslValue::Number(y)) => x == y,
        (NaslValue::Array(x), NaslValue::Array(y)) => x@.len() == y@.len() && equal_items(
            x@,
            y@,
            x@.len() as int,
        ),
        (NaslValue::Dict(x), NaslValue::Dict(y)) => x@.len() == y@.len() && equal_entries(
            x@,
            y@,
            x@.len() as int,
        ) && keys_covered(y@, x@, y@.len() as int),
        (NaslValue::Boolean(x), NaslValue::Boolean(y)) => x == y,
        (NaslValue::AttackCategory(x), NaslValue::AttackCategory(y)) => x == y,
        (NaslValue::Null, NaslValue::Null) => true,
        (NaslValue::Exit(x), NaslValue::Exit(y)) => x == y,
        (NaslValue::Return(x), NaslValue::Return(y)) => equal_values(*x, *y),
        (NaslValue::Break, NaslValue::Break) => true,
        _ => false,
    }
}

/// Whether the first `n` elements of `a` and `b` are equal values.
pub open spec fn equal_items(a: Seq<NaslValue>, b: Seq<NaslValue>, n: int) -> bool
    decreases a, n,
{
    if n <= 0 {
        true
    } else if n > a.len() || n > b.len() {
        false
    } else {
        equal_items(a, b, n - 1) && equal_values(a[n - 1], b[n - 1])
    }
}

/// Whether each of the first `n` entries of `a` has an entry of `b` with the
/// same key and an equal value, wherever it stands in `b`.
pub open spec fn equal_entries(a: Seq<(String, NaslValue)>, b: Seq<(String, NaslValue)>, n: int) -> bool
    decreases a, n,
{
    if n <= 0 {
        true
    } else if n > a.len() {
        false
    } else {
        &&& equal_entries(a, b, n - 1)
        &&& exists|k: int|
            #![trigger b[k]]
            0 <= k < b.len() && b[k].0@ == a[n - 1].0@ && equal_values(a[n - 1].1, b[k].1)
    }
}

/// Whether `key` is a key of `a`.
pub open spec fn has_key(a: Seq<(String, NaslValue)>, key: Seq<char>) -> bool {
    exists|i: int| #![trigger a[i]] 0 <= i < a.len() && a[i].0@ == key
}

/// Whether each of the first `n` keys of `b` is a key of `a`.
pub open spec fn keys_covered(b: Seq<(String, NaslValue)>, a: Seq<(String, NaslValue)>, n: int) -> bool
    decreases n,
{
    if n <= 0 {
        true
    } else {
        keys_covered(b, a, n - 1) && n <= b.len() && has_key(a, b[n - 1].0@)
    }
}

proof fn lemma_keys_cover_pointwise(b: Seq<(String, NaslValue)>, a: Seq<(String, NaslValue)>, n: int)
    requires
        0 <= n <= b.len(),
        n <= a.len(),
        forall|j: int| 0 <= j < n ==> #[trigger] a[j].0@ == b[j].0@,
    ensures
        keys_covered(b, a, n),
    decreases n,
{
    if n > 0 {
        lemma_keys_cover_pointwise(b, a, n - 1);
        assert(a[n - 1].0@ == b[n - 1].0@);
    }
}

proof fn lemma_keys_covered_grow(b: Seq<(String, NaslValue)>, a: Seq<(String, NaslValue)>, m: int, n: int)
    requires
        0 <= m <= n,
    ensures
        keys_covered(b, a, n) ==> keys_covered(b, a, m),
    decreases n - m,
{
    if m < n {
        lemma_keys_covered_grow(b, a, m, n - 1);
    }
}

proof fn lemma_equal_items_push(x: Seq<NaslValue>, e: NaslValue, y: Seq<NaslValue>, n: int)
    requires
        0 <= n <= x.len(),
    ensures
        equal_items(x.push(e), y, n) == equal_items(x, y, n),
    decreases n,
{
    if n > 0 {
        lemma_equal_items_push(x, e, y, n - 1);
        assert(x.push(e)[n - 1] == x[n - 1]);
    }
}

proof fn lemma_equal_entries_push(
    x: Seq<(String, NaslValue)>,
    e: (String, NaslValue),
    y: Seq<(String, NaslValue)>,
    n: int,
)
    requires
        0 <= n <= x.len(),
    ensures
        equal_entries(x.push(e), y, n) == equal_entries(x, y, n),
    decreases n,
{
    if n > 0 {
        lemma_equal_entries_push(x, e, y, n - 1);
        assert(x.push(e)[n - 1] == x[n - 1]);
    }
}

/// Relies on `FromIterator<char>` for `String`: the string holds the characters
/// in order.
#[verifier::external_body]
pub(crate) fn string_from_chars(v: &Vec<char>) -> (r: String)
    ensures
        r@ == v@,
{
    v.iter().collect()
}

/// The characters of `s`.
pub(crate) fn chars_of(s: &str) -> (r: Vec<char>)
    ensures
        r@ == s@,
{
    let n = s.unicode_len();
    let mut r: Vec<char> = Vec::new();
    let mut i: usize = 0;
    while i < n
        invariant
            n == s@.len(),
            i <= n,
            r@ == s@.subrange(0, i as int),
        decreases n - i,
    {
        r.push(s.get_char(i));
        i = i + 1;
        assert(r@ =~= s@.subrange(0, i as int));
    }
    assert(s@.subrange(0, n as int) =~= s@);
    r
}

/// Appends the characters of `s` to `out`.
pub(crate) fn push_str(out: &mut Vec<char>, s: &str)
    ensures
        final(out)@ == old(out)@ + s@,
{
    let n = s.unicode_len();
    let mut i: usize = 0;
    while i < n
        invariant
            n == s@.len(),
            i <= n,
            out@ == old(out)@ + s@.subrange(0, i as int),
        decreases n - i,
    {
        out.push(s.get_char(i));
        i = i + 1;
        assert(out@ =~= old(out)@ + s@.subrange(0, i as int));
    }
    assert(s@.subrange(0, n as int) =~= s@);
}

fn digit_char_exec(d: u64) -> (r: char)
    requires
        d < 10,
    ensures
        r == digit_char(d as nat),
{
    if d == 0 {
        '0'
    } else if d == 1 {
        '1'
    } else if d == 2 {
        '2'
    } else if d == 3 {
        '3'
    } else if d == 4 {
        '4'
    } else if d == 5 {
        '5'
    } else if d == 6 {
        '6'
    } else if d == 7 {
        '7'
    } else if d == 8 {
        '8'
    } else {
        '9'
    }
}

pub(crate) fn push_digits(out: &mut Vec<char>, m: u64)
    ensures
        final(out)@ == old(out)@ + nat_digits(m as nat),
    decreases m,
{
    if m >= 10 {
        push_digits(out, m / 10);
    }
    out.push(digit_char_exec(m % 10));
    assert(out@ =~= old(out)@ + nat_digits(m as nat));
}

/// Appends `n` in decimal to `out`.
pub fn push_decimal(out: &mut Vec<char>, n: i64)
    ensures
        final(out)@ == old(out)@ + decimal(n as int),
{
    if n < 0 {
        out.push('-');
        let m: u64 = (0i128 - n as i128) as u64;
        push_digits(out, m);
        assert(out@ =~= old(out)@ + decimal(n as int));
    } else {
        push_digits(out, n as u64);
    }
}

/// Bytes read one character per byte.
pub fn bytes_to_str(bytes: &[u8]) -> (r: String)
    ensures
        r@ == latin1(bytes@),
{
    let mut v: Vec<char> = Vec::new();
    let mut i: usize = 0;
    while i < bytes.len()
        invariant
            i <= bytes@.len(),
            v@ == latin1(bytes@.subrange(0, i as int)),
        decreases bytes@.len() - i,
    {
        v.push(bytes[i] as char);
        i = i + 1;
        assert(v@ =~= latin1(bytes@.subrange(0, i as int)));
    }
    assert(bytes@.subrange(0, bytes@.len() as int) =~= bytes@);
    string_from_chars(&v)
}

fn act_name_exec(c: ACT) -> (r: &'static str)
    ensures
        r@ == act_name(c),
{
    match c {
        ACT::Init => "ACT_INIT",
        ACT::Scanner => "ACT_SCANNER",
        ACT::Settings => "ACT_SETTINGS",
        ACT::GatherInfo => "ACT_GATHER_INFO",
        ACT::Attack => "ACT_ATTACK",
        ACT::MixedAttack => "ACT_MIXED_ATTACK",
        ACT::DestructiveAttack => "ACT_DESTRUCTIVE_ATTACK",
        ACT::Denial => "ACT_DENIAL",
        ACT::KillHost => "ACT_KILL_HOST",
        ACT::Flood => "ACT_FLOOD",
        ACT::End => "ACT_END",
    }
}

/// Appends the text of `v` to `out`.
pub(crate) fn push_text(out: &mut Vec<char>, v: &NaslValue)
    ensures
        final(out)@ == old(out)@ + text_of(*v),
    decreases v,
{
    match v {
        NaslValue::String(s) => push_str(out, s.as_str()),
        NaslValue::Data(b) => {
            let mut i: usize = 0;
            while i < b.len()
                invariant
                    i <= b@.len(),
                    out@ == old(out)@ + latin1(b@.subrange(0, i as int)),
                decreases b@.len() - i,
            {
                out.push(b[i] as char);
                i = i + 1;
                assert(out@ =~= old(out)@ + latin1(b@.subrange(0, i as int)));
            }
            assert(b@.subrange(0, b@.len() as int) =~= b@);
        },
        NaslValue::Number(n) => push_decimal(out, *n),
        NaslValue::Array(a) => {
            let mut i: usize = 0;
            assert(out@ =~= old(out)@ + items_text(a@, 0));
            while i < a.len()
                invariant
                    i <= a@.len(),
                    *v == NaslValue::Array(*a),
                    out@ == old(out)@ + items_text(a@, i as int),
                decreases a@.len() - i,
            {
                let ghost before = out@;
                if i > 0 {
                    out.push(',');
                }
                push_digits(out, i as u64);
                push_str(out, ": ");
                proof {
                    assert(decreases_to!(*v => (*v)->Array_0));
                    assert(decreases_to!(*a => a@));
                    assert(decreases_to!(a@ => a@[i as int]));
                }
                push_text(out, &a[i]);
                i = i + 1;
                proof {
                    reveal_strlit(": ");
                    reveal_strlit(",");
                    assert(out@ =~= old(out)@ + items_text(a@, i as int));
                }
            }
        },
        NaslValue::Dict(d) => {
            let mut i: usize = 0;
            assert(out@ =~= old(out)@ + entries_text(d@, 0));
            while i < d.len()
                invariant
                    i <= d@.len(),
                    *v == NaslValue::Dict(*d),
                    out@ == old(out)@ + entries_text(d@, i as int),
                decreases d@.len() - i,
            {
                if i > 0 {
                    out.push(',');
                }
                push_str(out, d[i].0.as_str());
                push_str(out, ": ");
                proof {
                    assert(decreases_to!(*v => (*v)->Dict_0));
                    assert(decreases_to!(*d => d@));
                    assert(decreases_to!(d@ => d@[i as int]));
                    assert(decreases_to!(d@[i as int] => d@[i as int].1));
                }
                push_text(out, &d[i].1);
                i = i + 1;
                proof {
                    reveal_strlit(": ");
                    reveal_strlit(",");
                    assert(out@ =~= old(out)@ + entries_text(d@, i as int));
                }
            }
        },
        NaslValue::Boolean(b) => {
            if *b {
                push_str(out, "true");
            } else {
                push_str(out, "false");
            }
        },
        NaslValue::Null => {
            out.push('\0');
            assert(out@ =~= old(out)@ + text_of(*v));
        },
        NaslValue::Exit(n) => {
            push_str(out, "exit(");
            push_decimal(out, *n);
            push_str(out, ")");
            assert(out@ =~= old(out)@ + text_of(*v));
        },
        NaslValue::AttackCategory(c) => push_str(out, act_name_exec(*c)),
        NaslValue::Return(_) => {
            assert(out@ =~= old(out)@ + text_of(*v));
        },
        NaslValue::Break => {
            assert(out@ =~= old(out)@ + text_of(*v));
        },
    }
}

impl NaslValue {
    /// The value read as a number.
    pub fn to_i64(&self) -> (r: i64)
        ensures
            r == int_of(*self),
    {
        match self {
            NaslValue::Null => 0,
            NaslValue::Number(n) => *n,
            NaslValue::Boolean(b) => if *b {
                1
            } else {
                0
            },
            NaslValue::Exit(n) => *n,
            NaslValue::String(_) => 1,
            NaslValue::Data(_) => 1,
            NaslValue::Array(_) => 1,
            NaslValue::Dict(_) => 1,
            NaslValue::AttackCategory(c) => match c {
                ACT::Init => 0,
                ACT::Scanner => 1,
                ACT::Settings => 2,
                ACT::GatherInfo => 3,
                ACT::Attack => 4,
                ACT::MixedAttack => 5,
                ACT::DestructiveAttack => 6,
                ACT::Denial => 7,
                ACT::KillHost => 8,
                ACT::Flood => 9,
                ACT::End => 10,
            },
            NaslValue::Return(_) => 0,
            NaslValue::Break => 0,
        }
    }

    /// The value read as a truth value.
    pub fn to_bool(&self) -> (r: bool)
        ensures
            r == truth_of(*self),
    {
        match self {
            NaslValue::Null => false,
            NaslValue::Boolean(b) => *b,
            NaslValue::Number(n) => *n != 0,
            NaslValue::Exit(n) => *n != 0,
            NaslValue::String(s) => {
                let c = chars_of(s.as_str());
                let r = !(c.len() == 0 || (c.len() == 1 && c[0] == '0'));
                assert(r == (s@ != Seq::<char>::empty() && s@ != seq!['0'])) by {
                    if c@.len() == 1 && c@[0] == '0' {
                        assert(s@ =~= seq!['0']);
                    }
                    if c@.len() == 0 {
                        assert(s@ =~= Seq::<char>::empty());
                    }
                }
                r
            },
            NaslValue::Data(b) => b.len() > 0,
            NaslValue::Array(a) => a.len() > 0,
            NaslValue::Dict(d) => d.len() > 0,
            NaslValue::AttackCategory(_) => true,
            NaslValue::Return(_) => false,
            NaslValue::Break => false,
        }
    }

    /// The text of the value.
    pub fn to_text(&self) -> (r: String)
        ensures
            r@ == text_of(*self),
    {
        let mut out: Vec<char> = Vec::new();
        push_text(&mut out, self);
        assert(out@ =~= text_of(*self));
        string_from_chars(&out)
    }
}


fn copy_bytes(b: &Vec<u8>) -> (r: Vec<u8>)
    ensures
        r@ == b@,
{
    let mut r: Vec<u8> = Vec::new();
    let mut i: usize = 0;
    while i < b.len()
        invariant
            i <= b@.len(),
            r@ == b@.subrange(0, i as int),
        decreases b@.len() - i,
    {
        r.push(b[i]);
        i = i + 1;
    }
    assert(b@.subrange(0, b@.len() as int) =~= b@);
    r
}

impl NaslValue {
    /// A copy of the value, equal to it.
    pub fn deep_clone(&self) -> (r: NaslValue)
        ensures
            equal_values(r, *self),
        decreases self,
    {
        match self {
            NaslValue::String(s) => {
                NaslValue::String(s.as_str().to_owned())
            },
            NaslValue::Data(b) => NaslValue::Data(copy_bytes(b)),
            NaslValue::Number(n) => NaslValue::Number(*n),
            NaslValue::Array(a) => {
                let mut out: Vec<NaslValue> = Vec::new();
                let mut i: usize = 0;
                while i < a.len()
                    invariant
                        i <= a@.len(),
                        *self == NaslValue::Array(*a),
                        out@.len() == i,
                        equal_items(out@, a@, i as int),
                    decreases a@.len() - i,
                {
                    proof {
                        assert(decreases_to!(*self => (*self)->Array_0));
                        assert(decreases_to!(*a => a@));
                        assert(decreases_to!(a@ => a@[i as int]));
                    }
                    let c = a[i].deep_clone();
                    proof {
                        lemma_equal_items_push(out@, c, a@, i as int);
                    }
                    out.push(c);
                    i = i + 1;
                }
                NaslValue::Array(out)
            },
            NaslValue::Dict(d) => {
                let mut out: Vec<(String, NaslValue)> = Vec::new();
                let mut i: usize = 0;
                while i < d.len()
                    invariant
                        i <= d@.len(),
                        *self == NaslValue::Dict(*d),
                        out@.len() == i,
                        equal_entries(out@, d@, i as int),
                        forall|j: int| 0 <= j < i ==> #[trigger] out@[j].0@ == d@[j].0@,
                    decreases d@.len() - i,
                {
                    proof {
                        assert(decreases_to!(*self => (*self)->Dict_0));
                        assert(decreases_to!(*d => d@));
                        assert(decreases_to!(d@ => d@[i as int]));
                        assert(decreases_to!(d@[i as int] => d@[i as int].1));
                    }
                    let c = d[i].1.deep_clone();
                    let k = d[i].0.as_str().to_owned();
                    let ghost before = out@;
                    proof {
                        lemma_equal_entries_push(out@, (k, c), d@, i as int);
                    }
                    out.push((k, c));
                    proof {
                        assert(out@[i as int] == (k, c));
                        assert(d@[i as int] == d@[i as int]);
                        assert(equal_entries(out@, d@, i as int + 1));
                        assert forall|j: int| 0 <= j < i + 1 implies #[trigger] out@[j].0@
                            == d@[j].0@ by {
                            if j < i {
                                assert(out@[j] == before[j]);
                            }
                        }
                    }
                    i = i + 1;
                }
                proof {
                    lemma_keys_cover_pointwise(d@, out@, d@.len() as int);
                }
                NaslValue::Dict(out)
            },
            NaslValue::Boolean(b) => NaslValue::Boolean(*b),
            NaslValue::AttackCategory(c) => NaslValue::AttackCategory(*c),
            NaslValue::Null => NaslValue::Null,
            NaslValue::Exit(n) => NaslValue::Exit(*n),
            NaslValue::Return(v) => NaslValue::Return(Box::new(v.deep_clone())),
            NaslValue::Break => NaslValue::Break,
        }
    }
}

impl Clone for NaslValue {
    fn clone(&self) -> Self {
        self.deep_clone()
    }
}



pub(crate) fn same_text(x: &str, y: &str) -> (r: bool)
    ensures
        r == (x@ == y@),
{
    let a = chars_of(x);
    let b = chars_of(y);
    if a.len() != b.len() {
        return false;
    }
    let mut i: usize = 0;
    while i < a.len()
        invariant
            a@.len() == b@.len(),
            i <= a@.len(),
            a@ == x@,
            b@ == y@,
            forall|k: int| 0 <= k < i ==> a@[k] == b@[k],
        decreases a@.len() - i,
    {
        if a[i] != b[i] {
            return false;
        }
        i = i + 1;
    }
    assert(a@ =~= b@);
    true
}

fn bytes_equal(x: &Vec<u8>, y: &Vec<u8>) -> (r: bool)
    ensures
        r == (x@ == y@),
{
    if x.len() != y.len() {
        return false;
    }
    let mut i: usize = 0;
    while i < x.len()
        invariant
            x@.len() == y@.len(),
            i <= x@.len(),
            forall|k: int| 0 <= k < i ==> x@[k] == y@[k],
        decreases x@.len() - i,
    {
        if x[i] != y[i] {
            return false;
        }
        i = i + 1;
    }
    assert(x@ =~= y@);
    true
}

/// Whether two values are equal in the sense of `==`.
pub fn values_equal(a: &NaslValue, b: &NaslValue) -> (r: bool)
    ensures
        r == equal_values(*a, *b),
    decreases a,
{
    match (a, b) {
        (NaslValue::String(x), NaslValue::String(y)) => same_text(x.as_str(), y.as_str()),
        (NaslValue::Data(x), NaslValue::Data(y)) => bytes_equal(x, y),
        (NaslValue::Number(x), NaslValue::Number(y)) => *x == *y,
        (NaslValue::Array(x), NaslValue::Array(y)) => {
            if x.len() != y.len() {
                return false;
            }
            let mut i: usize = 0;
            while i < x.len()
                invariant
                    x@.len() == y@.len(),
                    i <= x@.len(),
                    *a == NaslValue::Array(*x),
                    *b == NaslValue::Array(*y),
                    equal_items(x@, y@, i as int),
                decreases x@.len() - i,
            {
                proof {
                    assert(decreases_to!(*a => (*a)->Array_0));
                    assert(decreases_to!(*x => x@));
                    assert(decreases_to!(x@ => x@[i as int]));
                }
                if !values_equal(&x[i], &y[i]) {
                    proof {
                        assert(!equal_items(x@, y@, i as int + 1));
                        lemma_equal_items_grow(x@, y@, i as int + 1, x@.len() as int);
                    }
                    return false;
                }
                i = i + 1;
            }
            true
        },
        (NaslValue::Dict(x), NaslValue::Dict(y)) => {
            if x.len() != y.len() {
                return false;
            }
            let mut i: usize = 0;
            while i < x.len()
                invariant
                    x@.len() == y@.len(),
                    i <= x@.len(),
                    *a == NaslValue::Dict(*x),
                    *b == NaslValue::Dict(*y),
                    equal_entries(x@, y@, i as int),
                decreases x@.len() - i,
            {
                proof {
                    assert(decreases_to!(*a => (*a)->Dict_0));
                    assert(decreases_to!(*x => x@));
                    assert(decreases_to!(x@ => x@[i as int]));
                    assert(decreases_to!(x@[i as int] => x@[i as int].1));
                }
                let mut k: usize = 0;
                let mut found = false;
                while k < y.len() && !found
                    invariant
                        x@.len() == y@.len(),
                        i < x@.len(),
                        k <= y@.len(),
                        *a == NaslValue::Dict(*x),
                        found ==> 0 < k && y@[k - 1].0@ == x@[i as int].0@ && equal_values(
                            x@[i as int].1,
                            y@[k - 1].1,
                        ),
                        !found ==> forall|j: int|
                            #![trigger y@[j]]
                            0 <= j < k ==> !(y@[j].0@ == x@[i as int].0@ && equal_values(
                                x@[i as int].1,
                                y@[j].1,
                            )),
                    decreases y@.len() - k,
                {
                    proof {
                        assert(decreases_to!(*a => (*a)->Dict_0));
                        assert(decreases_to!(*x => x@));
                        assert(decreases_to!(x@ => x@[i as int]));
                        assert(decreases_to!(x@[i as int] => x@[i as int].1));
                    }
                    if same_text(x[i].0.as_str(), y[k].0.as_str()) && values_equal(&x[i].1, &y[k].1) {
                        found = true;
                    }
                    k = k + 1;
                }
                if !found {
                    proof {
                        assert(!equal_entries(x@, y@, i as int + 1));
                        lemma_equal_entries_grow(x@, y@, i as int + 1, x@.len() as int);
                    }
                    return false;
                }
                proof {
                    assert(y@[k - 1] == y@[k - 1]);
                    assert(equal_entries(x@, y@, i as int + 1));
                }
                i = i + 1;
            }
            let mut k: usize = 0;
            while k < y.len()
                invariant
                    x@.len() == y@.len(),
                    k <= y@.len(),
                    *a == NaslValue::Dict(*x),
                    *b == NaslValue::Dict(*y),
                    equal_entries(x@, y@, x@.len() as int),
                    keys_covered(y@, x@, k as int),
                decreases y@.len() - k,
            {
                let mut i: usize = 0;
                let mut found = false;
                while i < x.len() && !found
                    invariant
                        k < y@.len(),
                        i <= x@.len(),
                        found ==> 0 < i && x@[i - 1].0@ == y@[k as int].0@,
                        !found ==> forall|j: int|
                            #![trigger x@[j]]
                            0 <= j < i ==> x@[j].0@ != y@[k as int].0@,
                    decreases x@.len() - i,
                {
                    if same_text(x[i].0.as_str(), y[k].0.as_str()) {
                        found = true;
                    }
                    i = i + 1;
                }
                if !found {
                    proof {
                        assert(!has_key(x@, y@[k as int].0@));
                        assert(!keys_covered(y@, x@, k as int + 1));
                        lemma_keys_covered_grow(y@, x@, k as int + 1, y@.len() as int);
                        assert(!equal_values(*a, *b));
                    }
                    return false;
                }
                proof {
                    assert(x@[i - 1] == x@[i - 1]);
                    assert(has_key(x@, y@[k as int].0@));
                }
                k = k + 1;
            }
            true
        },
        (NaslValue::Boolean(x), NaslValue::Boolean(y)) => *x == *y,
        (NaslValue::AttackCategory(x), NaslValue::AttackCategory(y)) => *x == *y,
        (NaslValue::Null, NaslValue::Null) => true,
        (NaslValue::Exit(x), NaslValue::Exit(y)) => *x == *y,
        (NaslValue::Return(x), NaslValue::Return(y)) => values_equal(x, y),
        (NaslValue::Break, NaslValue::Break) => true,
        _ => false,
    }
}

proof fn lemma_equal_items_grow(a: Seq<NaslValue>, b: Seq<NaslValue>, m: int, n: int)
    requires
        0 <= m <= n,
    ensures
        equal_items(a, b, n) ==> equal_items(a, b, m),
    decreases n - m,
{
    if m < n {
        lemma_equal_items_grow(a, b, m, n - 1);
    }
}

proof fn lemma_equal_entries_grow(
    a: Seq<(String, NaslValue)>,
    b: Seq<(String, NaslValue)>,
    m: int,
    n: int,
)
    requires
        0 <= m <= n,
    ensures
        equal_entries(a, b, n) ==> equal_entries(a, b, m),
    decreases n - m,
{
    if m < n {
        lemma_equal_entries_grow(a, b, m, n - 1);
    }
}


/// Every value equals itself.
pub proof fn lemma_equal_refl(v: NaslValue)
    ensures
        equal_values(v, v),
    decreases v, 0nat,
{
    match v {
        NaslValue::Array(x) => lemma_items_refl(x@, x@.len() as int),
        NaslValue::Dict(d) => lemma_entries_refl(d@, d@.len() as int),
        NaslValue::Return(b) => lemma_equal_refl(*b),
        _ => {},
    }
}

proof fn lemma_items_refl(a: Seq<NaslValue>, n: int)
    requires
        0 <= n <= a.len(),
    ensures
        equal_items(a, a, n),
    decreases a, n,
{
    if n > 0 {
        lemma_items_refl(a, n - 1);
        lemma_equal_refl(a[n - 1]);
    }
}

proof fn lemma_entries_refl(a: Seq<(String, NaslValue)>, n: int)
    requires
        0 <= n <= a.len(),
    ensures
        equal_entries(a, a, n),
        keys_covered(a, a, a.len() as int),
    decreases a, n,
{
    if n > 0 {
        lemma_entries_refl(a, n - 1);
        lemma_equal_refl(a[n - 1].1);
        assert(a[n - 1] == a[n - 1]);
    }
    lemma_keys_cover_pointwise(a, a, a.len() as int);
}


/// The text of an argument that must be a string or a byte buffer.
pub struct StringOrData(pub String);

impl StringOrData {
    /// The text of `value`: a string as it is, a buffer one character per byte;
    /// any other value is a wrong argument.
    pub fn from_nasl_value(value: &NaslValue) -> (r: Result<StringOrData, FunctionErrorKind>)
        ensures
            value is String ==> r is Ok && r->Ok_0.0@ == value->String_0@,
            value is Data ==> r is Ok && r->Ok_0.0@ == latin1(value->Data_0@),
            !(value is String || value is Data) ==> r is Err && r->Err_0 is WrongArgument,
    {
        match value {
            NaslValue::String(s) => Ok(StringOrData(s.clone())),
            NaslValue::Data(b) => Ok(StringOrData(bytes_to_str(b.as_slice()))),
            _ => Err(FunctionErrorKind::WrongArgument("Expected string or byte buffer.".to_owned())),
        }
    }
}

} // verus!
