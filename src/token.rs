//! Tokens of NASL source text and the tokenizer that produces them.
//!
//! The tokenizer walks the UTF-8 bytes of the source. Every syntactic symbol of
//! NASL is ASCII, so the grammar is stated over bytes; string literals keep
//! whatever bytes stand between their quotes.
use vstd::prelude::*;
use vstd::string::StrSliceExecFns;
use vstd::string::StringSliceAdditionalSpecFns;
use vstd::utf8::encode_utf8;

verus! {

/// Identifies whether a string literal was single- or double-quoted.
#[derive(Clone, Copy, Debug, PartialEq, Eq, Structural)]
pub enum StringCategory {
    /// Single-quoted: the bytes are kept as written; a backslash only keeps the
    /// next quote from closing the literal.
    Quotable,
    /// Double-quoted: the escapes `\n \\ \" \' \r \t` are interpreted.
    Unquotable,
}

/// Identifies the base of a numeric literal.
#[derive(Clone, Copy, Debug, PartialEq, Eq, Structural)]
pub enum Base {
    /// Base 2, written with a leading `0b`, e.g. `0b010101`.
    Binary,
    /// Base 8, written with a leading `0`, e.g. `01234567`.
    Octal,
    /// Base 10, the default, e.g. `1234567890`.
    Base10,
    /// Base 16, written with a leading `0x`, e.g. `0x123456789ABCDEF0`.
    Hex,
}

/// Whether byte `c` is a digit of `base`.
pub open spec fn is_digit_of(base: Base, c: u8) -> bool {
    match base {
        Base::Binary => c == 0x30u8 || c == 0x31u8,
        Base::Octal => 0x30u8 <= c <= 0x37u8,
        Base::Base10 => 0x30u8 <= c <= 0x39u8,
        Base::Hex => (0x30u8 <= c <= 0x39u8) || (0x41u8 <= c <= 0x46u8) || (0x61u8 <= c
            <= 0x66u8),
    }
}

/// The radix of `base` as a number.
pub open spec fn radix_spec(base: Base) -> u32 {
    match base {
        Base::Binary => 2,
        Base::Octal => 8,
        Base::Base10 => 10,
        Base::Hex => 16,
    }
}

impl Base {
    fn verify_binary(peeked: u8) -> (r: bool)
        ensures
            r == is_digit_of(Base::Binary, peeked),
    {
        peeked == ('0' as u8) || peeked == ('1' as u8)
    }

    fn verify_octal(peeked: u8) -> (r: bool)
        ensures
            r == is_digit_of(Base::Octal, peeked),
    {
        ('0' as u8) <= peeked && peeked <= ('7' as u8)
    }

    fn verify_base10(peeked: u8) -> (r: bool)
        ensures
            r == is_digit_of(Base::Base10, peeked),
    {
        ('0' as u8) <= peeked && peeked <= ('9' as u8)
    }

    fn verify_hex(peeked: u8) -> (r: bool)
        ensures
            r == is_digit_of(Base::Hex, peeked),
    {
        (('0' as u8) <= peeked && peeked <= ('9' as u8)) || (('A' as u8) <= peeked && peeked <= ('F' as u8)) || (('a' as u8)
            <= peeked && peeked <= ('f' as u8))
    }

    /// Whether `peeked` is a digit of this base.
    pub(crate) fn accepts(self, peeked: u8) -> (r: bool)
        ensures
            r == is_digit_of(self, peeked),
    {
        match self {
            Base::Binary => Self::verify_binary(peeked),
            Base::Octal => Self::verify_octal(peeked),
            Base::Base10 => Self::verify_base10(peeked),
            Base::Hex => Self::verify_hex(peeked),
        }
    }

    /// Returns the radix.
    pub fn radix(&self) -> (r: u32)
        ensures
            r == radix_spec(*self),
    {
        match self {
            Base::Binary => 2,
            Base::Octal => 8,
            Base::Base10 => 10,
            Base::Hex => 16,
        }
    }
}

/// Identifies which kind of literal was left unclosed.
#[derive(Clone, Copy, Debug, PartialEq, Eq, Structural)]
pub enum UnclosedCategory {
    /// An unclosed string literal.
    String(StringCategory),
}

/// The scanning phase a script belongs to.
#[derive(Clone, Copy, Debug, PartialEq, Eq, Structural)]
pub enum ACT {
    /// ACT_INIT
    Init,
    /// ACT_SCANNER
    Scanner,
    /// ACT_SETTINGS
    Settings,
    /// ACT_GATHER_INFO
    GatherInfo,
    /// ACT_ATTACK
    Attack,
    /// ACT_MIXED_ATTACK
    MixedAttack,
    /// ACT_DESTRUCTIVE_ATTACK
    DestructiveAttack,
    /// ACT_DENIAL
    Denial,
    /// ACT_KILL_HOST
    KillHost,
    /// ACT_FLOOD
    Flood,
    /// ACT_END
    End,
}

/// Reserved words; `Undefined` holds every other identifier.
#[derive(Clone, Debug, PartialEq, Eq)]
pub enum IdentifierType {
    /// function
    Function,
    /// _FCT_ANON_ARGS
    FCTAnonArgs,
    /// TRUE
    True,
    /// FALSE
    False,
    /// for
    For,
    /// foreach
    ForEach,
    /// if
    If,
    /// else
    Else,
    /// while
    While,
    /// repeat
    Repeat,
    /// until
    Until,
    /// local_var
    LocalVar,
    /// global_var
    GlobalVar,
    /// NULL
    Null,
    /// return
    Return,
    /// include
    Include,
    /// A scanning phase, e.g. ACT_ATTACK
    ACT(ACT),
    /// exit
    Exit,
    /// Any identifier that is not reserved
    Undefined(String),
}

/// The category of a token.
#[derive(Clone, Debug, PartialEq, Eq)]
pub enum Category {
    /// `(`
    LeftParen,
    /// `)`
    RightParen,
    /// `[`
    LeftBrace,
    /// `]`
    RightBrace,
    /// `{`
    LeftCurlyBracket,
    /// `}`
    RightCurlyBracket,
    /// `,`
    Comma,
    /// `.`
    Dot,
    /// `%`
    Percent,
    /// `%=`
    PercentEqual,
    /// `;`
    Semicolon,
    /// `:`
    DoublePoint,
    /// `~`
    Tilde,
    /// `^`
    Caret,
    /// `&`
    Ampersand,
    /// `&&`
    AmpersandAmpersand,
    /// `|`
    Pipe,
    /// `||`
    PipePipe,
    /// `!`
    Bang,
    /// `!=`
    BangEqual,
    /// `!~`
    BangTilde,
    /// `=`
    Equal,
    /// `==`
    EqualEqual,
    /// `=~`
    EqualTilde,
    /// `>`
    Greater,
    /// `>>`
    GreaterGreater,
    /// `>=`
    GreaterEqual,
    /// `><`
    GreaterLess,
    /// `<`
    Less,
    /// `<<`
    LessLess,
    /// `<=`
    LessEqual,
    /// `-`
    Minus,
    /// `--`
    MinusMinus,
    /// `-=`
    MinusEqual,
    /// `+`
    Plus,
    /// `+=`
    PlusEqual,
    /// `++`
    PlusPlus,
    /// `/`
    Slash,
    /// `/=`
    SlashEqual,
    /// `*`
    Star,
    /// `**`
    StarStar,
    /// `*=`
    StarEqual,
    /// `>>>`
    GreaterGreaterGreater,
    /// `>>=`
    GreaterGreaterEqual,
    /// `<<=`
    LessLessEqual,
    /// `>!<`
    GreaterBangLess,
    /// `>>>=`
    GreaterGreaterGreaterEqual,
    /// `x`, the repeat operator, e.g. `send_packet(udp) x 200;`
    X,
    /// A string literal, either quoting kind
    String(String),
    /// A numeric literal in any base
    Number(i64),
    /// A dotted-quad address such as `127.0.0.1`
    IPv4Address,
    /// A dotted literal that is not a complete address
    IllegalIPv4Address,
    /// A numeric literal that cannot be read in its base, e.g. `0b2`
    IllegalNumber(Base),
    /// A comment from `#` to the end of the line
    Comment,
    /// A keyword or a name
    Identifier(IdentifierType),
    /// A literal that reaches the end of the source unclosed
    Unclosed(UnclosedCategory),
    /// A `0` followed by a letter that names no base
    UnknownBase,
    /// A byte that starts no token
    UnknownSymbol,
}

/// A category together with the half-open byte range it covers in the source.
#[derive(Debug, PartialEq, Eq)]
pub struct Token {
    /// The category or kind of the token
    pub category: Category,
    /// The byte range within the source code
    pub position: (usize, usize),
}

/// Whether a category is one of the error categories.
pub open spec fn is_faulty_category(c: Category) -> bool {
    match c {
        Category::IllegalIPv4Address => true,
        Category::IllegalNumber(_) => true,
        Category::Unclosed(_) => true,
        Category::UnknownBase => true,
        Category::UnknownSymbol => true,
        _ => false,
    }
}

impl Clone for Token {
    fn clone(&self) -> Token {
        Token { category: self.category.clone(), position: self.position }
    }
}

impl Token {
    /// Returns the category.
    pub fn category(&self) -> (r: &Category)
        ensures
            *r == self.category,
    {
        &self.category
    }

    /// Returns true when the token is a lexical error: an illegal address or
    /// number, an unclosed literal, an unknown base or an unknown symbol.
    pub fn is_faulty(&self) -> (r: bool)
        ensures
            r == is_faulty_category(self.category),
    {
        match self.category() {
            Category::IllegalIPv4Address => true,
            Category::IllegalNumber(_) => true,
            Category::Unclosed(_) => true,
            Category::UnknownBase => true,
            Category::UnknownSymbol => true,
            _ => false,
        }
    }
}


/// Byte classes that the tokenizer skips over.
#[derive(Clone, Copy, Debug, PartialEq, Eq, Structural)]
pub enum ByteClass {
    /// ASCII letters, digits and `_`
    IdentChar,
    /// every byte but a line feed
    NotNewline,
    /// the digits of a base
    Digit(Base),
}

/// Whether `c` is an ASCII letter.
pub open spec fn is_letter(c: u8) -> bool {
    ('A' as u8 <= c <= 'Z' as u8) || ('a' as u8 <= c <= 'z' as u8)
}

/// Whether `c` is an ASCII decimal digit.
pub open spec fn is_decimal(c: u8) -> bool {
    '0' as u8 <= c <= '9' as u8
}

/// Whether `c` belongs to `class`.
pub open spec fn in_class(class: ByteClass, c: u8) -> bool {
    match class {
        ByteClass::IdentChar => is_letter(c) || is_decimal(c) || c == '_' as u8,
        ByteClass::NotNewline => c != 0x0au8,
        ByteClass::Digit(b) => is_digit_of(b, c),
    }
}

/// The byte at `i`, or 0 past either end of `code`.
pub open spec fn peek_at(code: Seq<u8>, i: int) -> u8 {
    if 0 <= i < code.len() {
        code[i]
    } else {
        0
    }
}

/// How many bytes the whitespace character at `i` takes, or 0 when none
/// starts there: the ASCII spaces, tab, line feed, vertical tab, form feed and
/// carriage return, and the Unicode spaces U+0085, U+00A0, U+1680,
/// U+2000 to U+200A, U+2028, U+2029, U+202F, U+205F and U+3000.
pub open spec fn space_width(code: Seq<u8>, i: int) -> int {
    let c0 = peek_at(code, i);
    let c1 = peek_at(code, i + 1);
    let c2 = peek_at(code, i + 2);
    if c0 == ' ' as u8 || (0x09u8 <= c0 <= 0x0du8) {
        1
    } else if c0 == 0xc2u8 && (c1 == 0x85u8 || c1 == 0xa0u8) {
        2
    } else if c0 == 0xe1u8 && c1 == 0x9au8 && c2 == 0x80u8 {
        3
    } else if c0 == 0xe2u8 && c1 == 0x80u8 && ((0x80u8 <= c2 <= 0x8au8) || c2 == 0xa8u8 || c2
        == 0xa9u8 || c2 == 0xafu8) {
        3
    } else if c0 == 0xe2u8 && c1 == 0x81u8 && c2 == 0x9fu8 {
        3
    } else if c0 == 0xe3u8 && c1 == 0x80u8 && c2 == 0x80u8 {
        3
    } else {
        0
    }
}

/// The first position at or after `from` where no whitespace character
/// starts, or the end of `code`.
pub open spec fn skip_space(code: Seq<u8>, from: int) -> int
    decreases code.len() - from,
{
    if 0 <= from && space_width(code, from) > 0 && from + space_width(code, from) <= code.len() {
        skip_space(code, from + space_width(code, from))
    } else {
        from
    }
}

/// Skipping whitespace stays within the source.
pub proof fn lemma_skip_space_bounds(code: Seq<u8>, from: int)
    requires
        0 <= from <= code.len(),
    ensures
        from <= skip_space(code, from) <= code.len(),
    decreases code.len() - from,
{
    if space_width(code, from) > 0 && from + space_width(code, from) <= code.len() {
        lemma_skip_space_bounds(code, from + space_width(code, from));
    }
}

/// The first position at or after `from` whose byte is not in `class`, or the
/// end of `code`.
pub open spec fn scan(code: Seq<u8>, from: int, class: ByteClass) -> int
    decreases code.len() - from,
{
    if from < 0 || from >= code.len() {
        from
    } else if in_class(class, code[from]) {
        scan(code, from + 1, class)
    } else {
        from
    }
}

/// The position of the unescaped `quote` that closes a literal whose body
/// starts at `from`, or the end of `code`. `escaped` says whether the previous
/// byte was a backslash that is not itself escaped.
pub open spec fn scan_quoted(code: Seq<u8>, from: int, escaped: bool, quote: u8) -> int
    decreases code.len() - from,
{
    if from < 0 || from >= code.len() {
        from
    } else if !escaped && code[from] == quote {
        from
    } else {
        scan_quoted(code, from + 1, !escaped && code[from] == '\\' as u8, quote)
    }
}

/// The quote character of a string kind.
pub open spec fn quote_of(kind: StringCategory) -> u8 {
    match kind {
        StringCategory::Quotable => '\'' as u8,
        StringCategory::Unquotable => '"' as u8,
    }
}

/// The byte that a backslash followed by `c` stands for: `\n`, `\r`, `\t`,
/// `\\`, `\"` and `\'` are escapes; any other pair stands for itself.
pub open spec fn escaped(c: u8) -> Option<u8> {
    if c == 'n' as u8 {
        Some(0x0au8)
    } else if c == 'r' as u8 {
        Some(0x0du8)
    } else if c == 't' as u8 {
        Some(0x09u8)
    } else if c == '\\' as u8 || c == '"' as u8 || c == '\'' as u8 {
        Some(c)
    } else {
        None
    }
}

/// The body of a double-quoted literal with its escapes interpreted in one
/// pass from the left, as in C: `\\t` is a backslash and a `t`.
pub open spec fn unescape(s: Seq<u8>) -> Seq<u8>
    decreases s.len(),
{
    if s.len() < 2 {
        s
    } else if s[0] == '\\' as u8 && escaped(s[1]) is Some {
        seq![escaped(s[1])->Some_0] + unescape(s.subrange(2, s.len() as int))
    } else {
        seq![s[0]] + unescape(s.subrange(1, s.len() as int))
    }
}

/// The text that a byte string decodes to.
pub uninterp spec fn utf8_text(b: Seq<u8>) -> Seq<char>;

/// Whether every byte of `b` is ASCII.
pub open spec fn all_ascii(b: Seq<u8>) -> bool {
    forall|i: int| 0 <= i < b.len() ==> b[i] < 128
}

/// The characters of ASCII bytes.
pub open spec fn ascii_chars(b: Seq<u8>) -> Seq<char> {
    b.map_values(|x: u8| x as char)
}

/// Relies on `String::from_utf8_lossy`: it decodes the bytes as UTF-8, so the
/// encoding of a text decodes to that text, and ASCII bytes decode to the
/// characters of the same number.
#[verifier::external_body]
fn text_from_bytes(b: &Vec<u8>) -> (r: String)
    ensures
        r@ == utf8_text(b@),
        all_ascii(b@) ==> r@ == ascii_chars(b@),
        forall|s: Seq<char>| b@ == encode_utf8(s) ==> r@ == s,
{
    String::from_utf8_lossy(b).into_owned()
}

/// A copy of `v[lo..hi]`.
fn copy_range(v: &Vec<u8>, lo: usize, hi: usize) -> (r: Vec<u8>)
    requires
        lo <= hi <= v@.len(),
    ensures
        r@ == v@.subrange(lo as int, hi as int),
{
    let mut r: Vec<u8> = Vec::new();
    let mut i: usize = lo;
    while i < hi
        invariant
            lo <= i <= hi <= v@.len(),
            r@ == v@.subrange(lo as int, i as int),
        decreases hi - i,
    {
        r.push(v[i]);
        i = i + 1;
    }
    r
}

fn escaped_exec(c: u8) -> (r: Option<u8>)
    ensures
        r == escaped(c),
{
    if c == 'n' as u8 {
        Some(0x0au8)
    } else if c == 'r' as u8 {
        Some(0x0du8)
    } else if c == 't' as u8 {
        Some(0x09u8)
    } else if c == '\\' as u8 || c == '"' as u8 || c == '\'' as u8 {
        Some(c)
    } else {
        None
    }
}

/// Interprets the escapes of the body of a double-quoted literal.
fn unescape_bytes(s: &Vec<u8>) -> (out: Vec<u8>)
    ensures
        out@ == unescape(s@),
{
    let mut out: Vec<u8> = Vec::new();
    let mut i: usize = 0;
    let n = s.len();
    proof {
        assert(s@.subrange(0, n as int) =~= s@);
        assert(out@ + unescape(s@) =~= unescape(s@));
    }
    while i < n
        invariant
            n == s@.len(),
            i <= n,
            out@ + unescape(s@.subrange(i as int, n as int)) == unescape(
                s@),
        decreases n - i,
    {
        let rest = Ghost(s@.subrange(i as int, n as int));
        let esc = if i + 1 < n && s[i] == '\\' as u8 {
            escaped_exec(s[i + 1])
        } else {
            None
        };
        if esc.is_some() {
            let r = esc.unwrap();
            proof {
                assert(rest@.subrange(2, rest@.len() as int) =~= s@.subrange(
                    i + 2,
                    n as int,
                ));
                assert(out@.push(r) + unescape(s@.subrange(i + 2, n as int))
                    =~= out@ + (seq![r] + unescape(s@.subrange(i + 2, n as int))));
            }
            out.push(r);
            i = i + 2;
        } else {
            proof {
                if rest@.len() >= 2 {
                    assert(rest@.subrange(1, rest@.len() as int) =~= s@.subrange(
                        i + 1,
                        n as int,
                    ));
                    assert(out@.push(s@[i as int]) + unescape(
                        s@.subrange(i + 1, n as int)) =~= out@ + (seq![s@[i as int]] + unescape(
                        s@.subrange(i + 1, n as int))));
                } else {
                    assert(s@.subrange(i + 1, n as int) =~= Seq::<u8>::empty());
                    assert(rest@ =~= seq![s@[i as int]]);
                    assert(out@.push(s@[i as int]) =~= out@ + rest@);
                }
            }
            out.push(s[i]);
            i = i + 1;
        }
    }
    proof {
        assert(s@.subrange(n as int, n as int) =~= Seq::<u8>::empty());
        assert(out@ + Seq::<u8>::empty() =~= out@);
    }
    out
}




/// Whether the bytes `b` spell the characters `w`.
pub open spec fn spells(b: Seq<u8>, w: Seq<char>) -> bool {
    b.len() == w.len() && forall|i: int| 0 <= i < b.len() ==> b[i] as u32 == w[i] as u32
}

fn spells_exec(b: &Vec<u8>, w: &str) -> (r: bool)
    ensures
        r == spells(b@, w@),
{
    let n = w.unicode_len();
    if n != b.len() {
        return false;
    }
    let mut i: usize = 0;
    while i < n
        invariant
            n == w@.len(),
            n == b@.len(),
            i <= n,
            forall|j: int| 0 <= j < i ==> b@[j] as u32 == w@[j] as u32,
        decreases n - i,
    {
        if b[i] as u32 != w.get_char(i) as u32 {
            return false;
        }
        i = i + 1;
    }
    true
}

/// The reserved word that `b` spells, if any.
pub open spec fn reserved_word(b: Seq<u8>) -> Option<IdentifierType> {
    if spells(b, "function"@) {
        Some(IdentifierType::Function)
    } else if spells(b, "_FCT_ANON_ARGS"@) {
        Some(IdentifierType::FCTAnonArgs)
    } else if spells(b, "TRUE"@) {
        Some(IdentifierType::True)
    } else if spells(b, "FALSE"@) {
        Some(IdentifierType::False)
    } else if spells(b, "for"@) {
        Some(IdentifierType::For)
    } else if spells(b, "foreach"@) {
        Some(IdentifierType::ForEach)
    } else if spells(b, "if"@) {
        Some(IdentifierType::If)
    } else if spells(b, "else"@) {
        Some(IdentifierType::Else)
    } else if spells(b, "while"@) {
        Some(IdentifierType::While)
    } else if spells(b, "repeat"@) {
        Some(IdentifierType::Repeat)
    } else if spells(b, "until"@) {
        Some(IdentifierType::Until)
    } else if spells(b, "local_var"@) {
        Some(IdentifierType::LocalVar)
    } else if spells(b, "global_var"@) {
        Some(IdentifierType::GlobalVar)
    } else if spells(b, "NULL"@) {
        Some(IdentifierType::Null)
    } else if spells(b, "return"@) {
        Some(IdentifierType::Return)
    } else if spells(b, "include"@) {
        Some(IdentifierType::Include)
    } else if spells(b, "exit"@) {
        Some(IdentifierType::Exit)
    } else if spells(b, "ACT_ATTACK"@) {
        Some(IdentifierType::ACT(ACT::Attack))
    } else if spells(b, "ACT_DENIAL"@) {
        Some(IdentifierType::ACT(ACT::Denial))
    } else if spells(b, "ACT_DESTRUCTIVE_ATTACK"@) {
        Some(IdentifierType::ACT(ACT::DestructiveAttack))
    } else if spells(b, "ACT_END"@) {
        Some(IdentifierType::ACT(ACT::End))
    } else if spells(b, "ACT_FLOOD"@) {
        Some(IdentifierType::ACT(ACT::Flood))
    } else if spells(b, "ACT_GATHER_INFO"@) {
        Some(IdentifierType::ACT(ACT::GatherInfo))
    } else if spells(b, "ACT_INIT"@) {
        Some(IdentifierType::ACT(ACT::Init))
    } else if spells(b, "ACT_KILL_HOST"@) {
        Some(IdentifierType::ACT(ACT::KillHost))
    } else if spells(b, "ACT_MIXED_ATTACK"@) {
        Some(IdentifierType::ACT(ACT::MixedAttack))
    } else if spells(b, "ACT_SCANNER"@) {
        Some(IdentifierType::ACT(ACT::Scanner))
    } else if spells(b, "ACT_SETTINGS"@) {
        Some(IdentifierType::ACT(ACT::Settings))
    } else {
        None
    }
}

fn keyword_exec(b: &Vec<u8>) -> (r: Option<IdentifierType>)
    ensures
        r == reserved_word(b@),
{
    if spells_exec(b, "function") {
        Some(IdentifierType::Function)
    } else if spells_exec(b, "_FCT_ANON_ARGS") {
        Some(IdentifierType::FCTAnonArgs)
    } else if spells_exec(b, "TRUE") {
        Some(IdentifierType::True)
    } else if spells_exec(b, "FALSE") {
        Some(IdentifierType::False)
    } else if spells_exec(b, "for") {
        Some(IdentifierType::For)
    } else if spells_exec(b, "foreach") {
        Some(IdentifierType::ForEach)
    } else if spells_exec(b, "if") {
        Some(IdentifierType::If)
    } else if spells_exec(b, "else") {
        Some(IdentifierType::Else)
    } else if spells_exec(b, "while") {
        Some(IdentifierType::While)
    } else if spells_exec(b, "repeat") {
        Some(IdentifierType::Repeat)
    } else if spells_exec(b, "until") {
        Some(IdentifierType::Until)
    } else if spells_exec(b, "local_var") {
        Some(IdentifierType::LocalVar)
    } else if spells_exec(b, "global_var") {
        Some(IdentifierType::GlobalVar)
    } else if spells_exec(b, "NULL") {
        Some(IdentifierType::Null)
    } else if spells_exec(b, "return") {
        Some(IdentifierType::Return)
    } else if spells_exec(b, "include") {
        Some(IdentifierType::Include)
    } else if spells_exec(b, "exit") {
        Some(IdentifierType::Exit)
    } else if spells_exec(b, "ACT_ATTACK") {
        Some(IdentifierType::ACT(ACT::Attack))
    } else if spells_exec(b, "ACT_DENIAL") {
        Some(IdentifierType::ACT(ACT::Denial))
    } else if spells_exec(b, "ACT_DESTRUCTIVE_ATTACK") {
        Some(IdentifierType::ACT(ACT::DestructiveAttack))
    } else if spells_exec(b, "ACT_END") {
        Some(IdentifierType::ACT(ACT::End))
    } else if spells_exec(b, "ACT_FLOOD") {
        Some(IdentifierType::ACT(ACT::Flood))
    } else if spells_exec(b, "ACT_GATHER_INFO") {
        Some(IdentifierType::ACT(ACT::GatherInfo))
    } else if spells_exec(b, "ACT_INIT") {
        Some(IdentifierType::ACT(ACT::Init))
    } else if spells_exec(b, "ACT_KILL_HOST") {
        Some(IdentifierType::ACT(ACT::KillHost))
    } else if spells_exec(b, "ACT_MIXED_ATTACK") {
        Some(IdentifierType::ACT(ACT::MixedAttack))
    } else if spells_exec(b, "ACT_SCANNER") {
        Some(IdentifierType::ACT(ACT::Scanner))
    } else if spells_exec(b, "ACT_SETTINGS") {
        Some(IdentifierType::ACT(ACT::Settings))
    } else {
        None
    }
}

fn bytes_of_str(s: &str) -> (r: Vec<u8>)
    ensures
        r@ == s.spec_bytes(),
{
    let b = s.as_bytes();
    let mut r: Vec<u8> = Vec::new();
    let mut i: usize = 0;
    while i < b.len()
        invariant
            b@ == s.spec_bytes(),
            i <= b@.len(),
            r@ == b@.subrange(0, i as int),
        decreases b@.len() - i,
    {
        r.push(b[i]);
        i = i + 1;
    }
    proof {
        assert(b@.subrange(0, b@.len() as int) =~= b@);
    }
    r
}

impl IdentifierType {
    /// The reserved word spelled by `keyword`, or `Undefined(keyword)`.
    pub fn new(keyword: &str) -> (r: IdentifierType)
        ensures
            match reserved_word(keyword.spec_bytes()) {
                Some(k) => r == k,
                None => r is Undefined && r->Undefined_0@ == keyword@,
            },
    {
        let b = bytes_of_str(keyword);
        match keyword_exec(&b) {
            Some(k) => k,
            None => IdentifierType::Undefined(keyword.to_owned()),
        }
    }
}

/// The value of the digit `c`, read as a hexadecimal digit.
pub open spec fn digit_value(c: u8) -> int {
    if c <= '9' as u8 {
        c - '0' as u8
    } else if c >= 'a' as u8 {
        c - 'a' as u8 + 10
    } else {
        c - 'A' as u8 + 10
    }
}

/// The number that the digits `s` denote in `radix`.
pub open spec fn digits_value(s: Seq<u8>, radix: int) -> int
    decreases s.len(),
{
    if s.len() == 0 {
        0
    } else {
        digits_value(s.drop_last(), radix) * radix + digit_value(s.last())
    }
}

proof fn lemma_digits_nonneg(s: Seq<u8>, radix: int)
    requires
        radix >= 1,
        forall|k: int| 0 <= k < s.len() ==> digit_value(#[trigger] s[k]) >= 0,
    ensures
        digits_value(s, radix) >= 0,
    decreases s.len(),
{
    if s.len() > 0 {
        lemma_digits_nonneg(s.drop_last(), radix);
        let x = digits_value(s.drop_last(), radix);
        assert(x * radix >= 0) by (nonlinear_arith)
            requires
                x >= 0,
                radix >= 1,
        ;
    }
}

proof fn lemma_digits_grow(s: Seq<u8>, i: int, radix: int)
    requires
        0 <= i <= s.len(),
        radix >= 1,
        forall|k: int| 0 <= k < s.len() ==> digit_value(#[trigger] s[k]) >= 0,
    ensures
        digits_value(s.subrange(0, i), radix) <= digits_value(s, radix),
    decreases s.len(),
{
    if i == s.len() {
        assert(s.subrange(0, i) =~= s);
    } else {
        let t = s.drop_last();
        lemma_digits_grow(t, i, radix);
        assert(t.subrange(0, i) =~= s.subrange(0, i));
        lemma_digits_nonneg(t, radix);
        let x = digits_value(t, radix);
        assert(x * radix >= x) by (nonlinear_arith)
            requires
                x >= 0,
                radix >= 1,
        ;
    }
}

fn digit_exec(c: u8) -> (r: i64)
    requires
        is_digit_of(Base::Hex, c),
    ensures
        r == digit_value(c),
{
    if c <= '9' as u8 {
        (c - '0' as u8) as i64
    } else if c >= 'a' as u8 {
        (c - 'a' as u8 + 10) as i64
    } else {
        (c - 'A' as u8 + 10) as i64
    }
}

/// Reads `code[lo..hi]` as digits of `base`: `None` when the number does not fit
/// in an `i64`.
fn parse_digits(code: &Vec<u8>, lo: usize, hi: usize, base: Base) -> (r: Option<i64>)
    requires
        lo <= hi <= code@.len(),
        forall|k: int| lo <= k < hi ==> is_digit_of(base, #[trigger] code@[k]),
    ensures
        ({
            let v = digits_value(code@.subrange(lo as int, hi as int), radix_spec(base) as int);
            if v <= i64::MAX {
                r == Some(v as i64)
            } else {
                r is None
            }
        }),
{
    let radix = base.radix() as i64;
    let ghost full = code@.subrange(lo as int, hi as int);
    let mut acc: i64 = 0;
    let mut i: usize = lo;
    proof {
        assert(code@.subrange(lo as int, lo as int) =~= Seq::<u8>::empty());
        assert forall|k: int| 0 <= k < full.len() implies digit_value(#[trigger] full[k]) >= 0 by {
            assert(is_digit_of(base, code@[lo + k]));
        }
    }
    while i < hi
        invariant
            lo <= i <= hi <= code@.len(),
            full == code@.subrange(lo as int, hi as int),
            radix == radix_spec(base),
            forall|k: int| lo <= k < hi ==> is_digit_of(base, #[trigger] code@[k]),
            forall|k: int| 0 <= k < full.len() ==> digit_value(#[trigger] full[k]) >= 0,
            acc >= 0,
            acc == digits_value(code@.subrange(lo as int, i as int), radix as int),
        decreases hi - i,
    {
        let ghost prev = code@.subrange(lo as int, i as int);
        let ghost next = code@.subrange(lo as int, i + 1);
        assert(next.drop_last() =~= prev);
        assert(next.last() == code@[i as int]);
        assert(is_digit_of(base, code@[i as int]));
        let d = digit_exec(code[i]);
        assert(0 <= d < radix);
        proof {
            assert(full.subrange(0, i + 1 - lo) =~= next);
            lemma_digits_grow(full, i + 1 - lo, radix as int);
        }
        match acc.checked_mul(radix) {
            Some(m) => match m.checked_add(d) {
                Some(v) => {
                    acc = v;
                },
                None => {
                    return None;
                },
            },
            None => {
                assert(acc * radix + d > i64::MAX) by (nonlinear_arith)
                    requires
                        acc * radix > i64::MAX,
                        d >= 0,
                ;
                return None;
            },
        }
        i = i + 1;
    }
    proof {
        assert(code@.subrange(lo as int, hi as int) == full);
    }
    Some(acc)
}

/// A token of category `cat` covering `start..end`.
pub open spec fn tok(cat: Category, start: int, end: int) -> Token {
    Token { category: cat, position: (start as usize, end as usize) }
}

/// The operator or punctuator that `>` at `start` begins, with its end.
pub open spec fn greater_lexeme(code: Seq<u8>, start: int) -> (Category, int) {
    let p = start + 1;
    let n0 = peek_at(code, p);
    let n1 = peek_at(code, p + 1);
    let n2 = peek_at(code, p + 2);
    if n0 == '=' as u8 {
        (Category::GreaterEqual, p + 1)
    } else if n0 == '<' as u8 {
        (Category::GreaterLess, p + 1)
    } else if n0 == '>' as u8 {
        if n1 == '>' as u8 {
            if n2 == '=' as u8 {
                (Category::GreaterGreaterGreaterEqual, p + 3)
            } else {
                (Category::GreaterGreaterGreater, p + 2)
            }
        } else if n1 == '=' as u8 {
            (Category::GreaterGreaterEqual, p + 2)
        } else {
            (Category::GreaterGreater, p + 1)
        }
    } else if n0 == '!' as u8 && n1 == '<' as u8 {
        (Category::GreaterBangLess, p + 2)
    } else {
        (Category::Greater, p)
    }
}

/// The operator that `<` at `start` begins, with its end.
pub open spec fn less_lexeme(code: Seq<u8>, start: int) -> (Category, int) {
    let p = start + 1;
    let n0 = peek_at(code, p);
    let n1 = peek_at(code, p + 1);
    if n0 == '=' as u8 {
        (Category::LessEqual, p + 1)
    } else if n0 == '<' as u8 {
        if n1 == '=' as u8 {
            (Category::LessLessEqual, p + 2)
        } else {
            (Category::LessLess, p + 1)
        }
    } else {
        (Category::Less, p)
    }
}

/// The punctuator or operator that begins at `start`, with its end; `None` when
/// the byte there starts another kind of token.
pub open spec fn symbol_lexeme(code: Seq<u8>, start: int) -> Option<(Category, int)> {
    let c = code[start];
    let p = start + 1;
    let n0 = peek_at(code, p);
    if c == '(' as u8 {
        Some((Category::LeftParen, p))
    } else if c == ')' as u8 {
        Some((Category::RightParen, p))
    } else if c == '[' as u8 {
        Some((Category::LeftBrace, p))
    } else if c == ']' as u8 {
        Some((Category::RightBrace, p))
    } else if c == '{' as u8 {
        Some((Category::LeftCurlyBracket, p))
    } else if c == '}' as u8 {
        Some((Category::RightCurlyBracket, p))
    } else if c == ',' as u8 {
        Some((Category::Comma, p))
    } else if c == '.' as u8 {
        Some((Category::Dot, p))
    } else if c == ';' as u8 {
        Some((Category::Semicolon, p))
    } else if c == ':' as u8 {
        Some((Category::DoublePoint, p))
    } else if c == '~' as u8 {
        Some((Category::Tilde, p))
    } else if c == '^' as u8 {
        Some((Category::Caret, p))
    } else if c == '-' as u8 {
        Some(
            if n0 == '-' as u8 {
                (Category::MinusMinus, p + 1)
            } else if n0 == '=' as u8 {
                (Category::MinusEqual, p + 1)
            } else {
                (Category::Minus, p)
            },
        )
    } else if c == '+' as u8 {
        Some(
            if n0 == '+' as u8 {
                (Category::PlusPlus, p + 1)
            } else if n0 == '=' as u8 {
                (Category::PlusEqual, p + 1)
            } else {
                (Category::Plus, p)
            },
        )
    } else if c == '%' as u8 {
        Some(
            if n0 == '=' as u8 {
                (Category::PercentEqual, p + 1)
            } else {
                (Category::Percent, p)
            },
        )
    } else if c == '/' as u8 {
        Some(
            if n0 == '=' as u8 {
                (Category::SlashEqual, p + 1)
            } else {
                (Category::Slash, p)
            },
        )
    } else if c == '*' as u8 {
        Some(
            if n0 == '*' as u8 {
                (Category::StarStar, p + 1)
            } else if n0 == '=' as u8 {
                (Category::StarEqual, p + 1)
            } else {
                (Category::Star, p)
            },
        )
    } else if c == '&' as u8 {
        Some(
            if n0 == '&' as u8 {
                (Category::AmpersandAmpersand, p + 1)
            } else {
                (Category::Ampersand, p)
            },
        )
    } else if c == '|' as u8 {
        Some(
            if n0 == '|' as u8 {
                (Category::PipePipe, p + 1)
            } else {
                (Category::Pipe, p)
            },
        )
    } else if c == '!' as u8 {
        Some(
            if n0 == '=' as u8 {
                (Category::BangEqual, p + 1)
            } else if n0 == '~' as u8 {
                (Category::BangTilde, p + 1)
            } else {
                (Category::Bang, p)
            },
        )
    } else if c == '=' as u8 {
        Some(
            if n0 == '=' as u8 {
                (Category::EqualEqual, p + 1)
            } else if n0 == '~' as u8 {
                (Category::EqualTilde, p + 1)
            } else {
                (Category::Equal, p)
            },
        )
    } else if c == '>' as u8 {
        Some(greater_lexeme(code, start))
    } else if c == '<' as u8 {
        Some(less_lexeme(code, start))
    } else {
        None
    }
}

/// The string literal whose opening quote stands at `start`: `t` is its token,
/// which covers both quotes, and `next` the position after it. It closes at the
/// next quote of its kind that no backslash escapes.
pub open spec fn string_lexes(
    code: Seq<u8>,
    start: int,
    kind: StringCategory,
    t: Token,
    next: int,
) -> bool {
    let s = start + 1;
    let e = scan_quoted(code, s, false, quote_of(kind));
    let raw = code.subrange(s, e);
    let body = match kind {
        StringCategory::Quotable => raw,
        StringCategory::Unquotable => unescape(raw),
    };
    if e >= code.len() {
        t == tok(Category::Unclosed(UnclosedCategory::String(kind)), start, e) && next == e
    } else {
        &&& t.position == (start as usize, (e + 1) as usize)
        &&& next == e + 1
        &&& t.category is String
        &&& t.category->String_0@ == utf8_text(body)
        &&& all_ascii(body) ==> t.category->String_0@ == ascii_chars(body)
    }
}

/// The dotted address whose first group spans `s..e`, with a `.` and a digit
/// after `e`. Three more groups make an address.
pub open spec fn ipv4_lexes(code: Seq<u8>, s: int, e: int, t: Token, next: int) -> bool {
    let e1 = scan(code, e + 1, ByteClass::Digit(Base::Base10));
    let e2 = scan(code, e1 + 1, ByteClass::Digit(Base::Base10));
    let e3 = scan(code, e2 + 1, ByteClass::Digit(Base::Base10));
    if !(peek_at(code, e1) == '.' as u8 && is_decimal(peek_at(code, e1 + 1))) {
        t == tok(Category::IllegalIPv4Address, s, e1) && next == e1
    } else if !(peek_at(code, e2) == '.' as u8 && is_decimal(peek_at(code, e2 + 1))) {
        t == tok(Category::IllegalIPv4Address, s, e2) && next == e2
    } else {
        t == tok(Category::IPv4Address, s, e3) && next == e3
    }
}

/// The literal that starts at `start`, with its prefix, and whose digits of
/// `base` span `s..e`; the token covers the whole literal.
pub open spec fn digits_lexes(
    code: Seq<u8>,
    base: Base,
    start: int,
    s: int,
    e: int,
    t: Token,
    next: int,
) -> bool {
    let v = digits_value(code.subrange(s, e), radix_spec(base) as int);
    if base == Base::Base10 && peek_at(code, e) == '.' as u8 && is_decimal(peek_at(code, e + 1)) {
        ipv4_lexes(code, start, e, t, next)
    } else if s == e || v > i64::MAX {
        t == tok(Category::IllegalNumber(base), start, e) && next == e
    } else {
        t == tok(Category::Number(v as i64), start, e) && next == e
    }
}

/// The numeric literal whose first digit stands at `start`.
pub open spec fn number_lexes(code: Seq<u8>, start: int, t: Token, next: int) -> bool {
    let c = code[start];
    let p = start + 1;
    let n0 = peek_at(code, p);
    let zero = c == '0' as u8;
    if zero && n0 == 'b' as u8 {
        digits_lexes(code, Base::Binary, start, p + 1, scan(code, p + 1, ByteClass::Digit(Base::Binary)), t, next)
    } else if zero && n0 == 'x' as u8 {
        digits_lexes(code, Base::Hex, start, p + 1, scan(code, p + 1, ByteClass::Digit(Base::Hex)), t, next)
    } else if zero && is_digit_of(Base::Octal, n0) {
        digits_lexes(code, Base::Octal, start, p, scan(code, p, ByteClass::Digit(Base::Octal)), t, next)
    } else if zero && is_letter(n0) {
        t == tok(Category::UnknownBase, start, p) && next == p
    } else {
        digits_lexes(code, Base::Base10, start, start, scan(code, p, ByteClass::Digit(Base::Base10)), t, next)
    }
}

/// The name or keyword whose first byte stands at `start`. A lone `x` followed
/// (after whitespace) by a digit is the repeat operator.
pub open spec fn identifier_lexes(code: Seq<u8>, start: int, t: Token, next: int) -> bool {
    let e = scan(code, start + 1, ByteClass::IdentChar);
    let word = code.subrange(start, e);
    let w = skip_space(code, e);
    &&& t.position == (start as usize, e as usize)
    &&& if word == seq!['x' as u8] {
        &&& next == w
        &&& if is_decimal(peek_at(code, w)) {
            t.category == Category::X
        } else {
            &&& t.category is Identifier
            &&& t.category->Identifier_0 is Undefined
            &&& t.category->Identifier_0->Undefined_0@ == seq!['x']
        }
    } else {
        &&& next == e
        &&& t.category is Identifier
        &&& match reserved_word(word) {
            Some(k) => t.category->Identifier_0 == k,
            None => {
                &&& t.category->Identifier_0 is Undefined
                &&& t.category->Identifier_0->Undefined_0@ == ascii_chars(word)
            },
        }
    }
}

/// How many bytes the UTF-8 character whose first byte is `c` takes.
pub open spec fn utf8_width(c: u8) -> int {
    if c < 0xc0u8 {
        1
    } else if c < 0xe0u8 {
        2
    } else if c < 0xf0u8 {
        3
    } else {
        4
    }
}

/// The end of the character that starts at `start`, within `code`.
pub open spec fn char_end(code: Seq<u8>, start: int) -> int {
    if start + utf8_width(code[start]) <= code.len() {
        start + utf8_width(code[start])
    } else {
        code.len() as int
    }
}

/// The token that begins at `start`, a position that holds no whitespace:
/// `t` is the token and `next` the position where reading goes on.
pub open spec fn lexes(code: Seq<u8>, start: int, t: Token, next: int) -> bool {
    let c = code[start];
    if symbol_lexeme(code, start) is Some {
        let (cat, end) = symbol_lexeme(code, start)->Some_0;
        t == tok(cat, start, end) && next == end
    } else if c == '#' as u8 {
        let e = scan(code, start + 1, ByteClass::NotNewline);
        t == tok(Category::Comment, start, e) && next == e
    } else if c == '"' as u8 {
        string_lexes(code, start, StringCategory::Unquotable, t, next)
    } else if c == '\'' as u8 {
        string_lexes(code, start, StringCategory::Quotable, t, next)
    } else if is_decimal(c) {
        number_lexes(code, start, t, next)
    } else if is_letter(c) || c == '_' as u8 {
        identifier_lexes(code, start, t, next)
    } else {
        t == tok(Category::UnknownSymbol, start, char_end(code, start)) && next == char_end(
            code,
            start,
        )
    }
}

/// Tokens `toks` are read one after another from `from`, and reading stops at
/// `to`.
pub open spec fn lexes_run(code: Seq<u8>, from: int, toks: Seq<Token>, to: int) -> bool
    decreases toks.len(),
{
    if toks.len() == 0 {
        from == to
    } else {
        exists|mid: int|
            #![trigger skip_space(code, mid)]
            lexes_run(code, from, toks.drop_last(), mid) && skip_space(code, mid)
                < code.len() && lexes(
                code,
                skip_space(code, mid),
                toks.last(),
                to,
            )
    }
}


fn in_class_exec(class: ByteClass, c: u8) -> (r: bool)
    ensures
        r == in_class(class, c),
{
    match class {
        ByteClass::IdentChar => ('A' as u8 <= c && c <= 'Z' as u8) || ('a' as u8 <= c && c
            <= 'z' as u8) || ('0' as u8 <= c && c <= '9' as u8) || c == '_' as u8,
        ByteClass::NotNewline => c != 0x0au8,
        ByteClass::Digit(b) => b.accepts(c),
    }
}

/// Reads tokens from NASL source, one at a time.
pub struct Tokenizer {
    code: Vec<u8>,
    pos: usize,
}

impl Tokenizer {
    #[verifier::type_invariant]
    spec fn inv(self) -> bool {
        self.pos <= self.code@.len()
    }

    /// The bytes of the source.
    pub closed spec fn source(self) -> Seq<u8> {
        self.code@
    }

    /// How many bytes of the source have been read.
    pub closed spec fn consumed(self) -> int {
        self.pos as int
    }

    /// Creates a tokenizer at the start of `code`.
    pub fn new(code: &str) -> (r: Tokenizer)
        ensures
            r.source() == code.spec_bytes(),
            r.consumed() == 0,
    {
        Tokenizer { code: bytes_of_str(code), pos: 0 }
    }

    /// The length of the source in bytes.
    pub fn source_len(&self) -> (r: usize)
        ensures
            r == self.source().len(),
    {
        self.code.len()
    }

    /// The text of the source within `range`.
    pub fn lookup(&self, range: std::ops::Range<usize>) -> (r: String)
        requires
            range.start <= range.end <= self.source().len(),
        ensures
            r@ == utf8_text(self.source().subrange(range.start as int, range.end as int)),
            all_ascii(self.source().subrange(range.start as int, range.end as int)) ==> r@
                == ascii_chars(self.source().subrange(range.start as int, range.end as int)),
            forall|s: Seq<char>|
                self.source().subrange(range.start as int, range.end as int) == encode_utf8(s) ==> r@
                    == s,
    {
        let b = copy_range(&self.code, range.start, range.end);
        text_from_bytes(&b)
    }

    fn peek(&self, n: usize) -> (r: u8)
        ensures
            r == peek_at(self.source(), self.consumed() + n),
    {
        proof {
            use_type_invariant(self);
        }
        if n < self.code.len() - self.pos {
            self.code[self.pos + n]
        } else {
            0
        }
    }

    fn advance(&mut self) -> (r: Option<u8>)
        ensures
            final(self).source() == old(self).source(),
            old(self).consumed() < old(self).source().len() ==> r == Some(
                old(self).source()[old(self).consumed()],
            ) && final(self).consumed() == old(self).consumed() + 1,
            old(self).consumed() >= old(self).source().len() ==> r is None
                && final(self).consumed() == old(self).consumed(),
    {
        proof {
            use_type_invariant(&*self);
        }
        if self.pos < self.code.len() {
            let c = self.code[self.pos];
            self.pos = self.pos + 1;
            Some(c)
        } else {
            None
        }
    }

    fn skip_while(&mut self, class: ByteClass)
        ensures
            final(self).source() == old(self).source(),
            final(self).consumed() == scan(old(self).source(), old(self).consumed(), class),
            old(self).consumed() <= final(self).consumed() <= old(self).source().len(),
    {
        proof {
            use_type_invariant(&*self);
        }
        let mut p = self.pos;
        let n = self.code.len();
        while p < n && in_class_exec(class, self.code[p])
            invariant
                n == self.code@.len(),
                self.pos <= p <= n,
                scan(self.code@, p as int, class) == scan(self.code@, self.pos as int, class),
            decreases n - p,
        {
            p = p + 1;
        }
        self.pos = p;
    }

    fn space_width_exec(&self, p: usize) -> (r: usize)
        requires
            p <= self.source().len(),
        ensures
            r == space_width(self.source(), p as int),
    {
        proof {
            use_type_invariant(self);
        }
        let n = self.code.len();
        let c0 = if p < n { self.code[p] } else { 0 };
        let c1 = if n - p > 1 { self.code[p + 1] } else { 0 };
        let c2 = if n - p > 2 { self.code[p + 2] } else { 0 };
        if c0 == ' ' as u8 || (0x09u8 <= c0 && c0 <= 0x0du8) {
            1
        } else if c0 == 0xc2u8 && (c1 == 0x85u8 || c1 == 0xa0u8) {
            2
        } else if c0 == 0xe1u8 && c1 == 0x9au8 && c2 == 0x80u8 {
            3
        } else if c0 == 0xe2u8 && c1 == 0x80u8 && ((0x80u8 <= c2 && c2 <= 0x8au8) || c2 == 0xa8u8
            || c2 == 0xa9u8 || c2 == 0xafu8) {
            3
        } else if c0 == 0xe2u8 && c1 == 0x81u8 && c2 == 0x9fu8 {
            3
        } else if c0 == 0xe3u8 && c1 == 0x80u8 && c2 == 0x80u8 {
            3
        } else {
            0
        }
    }

    fn skip_whitespace(&mut self)
        ensures
            final(self).source() == old(self).source(),
            final(self).consumed() == skip_space(old(self).source(), old(self).consumed()),
            old(self).consumed() <= final(self).consumed() <= old(self).source().len(),
    {
        proof {
            use_type_invariant(&*self);
        }
        let mut p = self.pos;
        let n = self.code.len();
        loop
            invariant
                n == self.code@.len(),
                self.pos <= p <= n,
                skip_space(self.code@, p as int) == skip_space(self.code@, self.pos as int),
            ensures
                self.pos <= p <= n,
                p as int == skip_space(self.code@, self.pos as int),
            decreases n - p,
        {
            let w = self.space_width_exec(p);
            if w > 0 && w <= n - p {
                p = p + w;
            } else {
                break;
            }
        }
        self.pos = p;
    }

    fn skip_quoted(&mut self, quote: u8)
        ensures
            final(self).source() == old(self).source(),
            final(self).consumed() == scan_quoted(old(self).source(), old(self).consumed(), false, quote),
            old(self).consumed() <= final(self).consumed() <= old(self).source().len(),
    {
        proof {
            use_type_invariant(&*self);
        }
        let mut p = self.pos;
        let n = self.code.len();
        let mut escaped = false;
        while p < n && (escaped || self.code[p] != quote)
            invariant
                n == self.code@.len(),
                self.pos <= p <= n,
                scan_quoted(self.code@, p as int, escaped, quote) == scan_quoted(
                    self.code@,
                    self.pos as int,
                    false,
                    quote,
                ),
            decreases n - p,
        {
            escaped = !escaped && self.code[p] == '\\' as u8;
            p = p + 1;
        }
        self.pos = p;
    }

    fn single(&self, cat: Category, start: usize) -> (r: Token)
        requires
            start <= self.consumed(),
        ensures
            r == tok(cat, start as int, self.consumed()),
    {
        Token { category: cat, position: (start, self.pos) }
    }

    fn two_symbol(&mut self, start: usize, single: Category, a: u8, ca: Category) -> (r: Token)
        requires
            start <= old(self).consumed(),
            a != 0,
        ensures
            final(self).source() == old(self).source(),
            ({
                let n0 = peek_at(old(self).source(), old(self).consumed());
                if n0 == a {
                    r == tok(ca, start as int, old(self).consumed() + 1) && final(self).consumed()
                        == old(self).consumed() + 1
                } else {
                    r == tok(single, start as int, old(self).consumed()) && final(self).consumed()
                        == old(self).consumed()
                }
            }),
    {
        proof {
            use_type_invariant(&*self);
        }
        if self.peek(0) == a {
            self.advance();
            self.single(ca, start)
        } else {
            self.single(single, start)
        }
    }

    fn three_symbol(
        &mut self,
        start: usize,
        single: Category,
        a: u8,
        ca: Category,
        b: u8,
        cb: Category,
    ) -> (r: Token)
        requires
            start <= old(self).consumed(),
            a != 0,
            b != 0,
        ensures
            final(self).source() == old(self).source(),
            ({
                let n0 = peek_at(old(self).source(), old(self).consumed());
                if n0 == a {
                    r == tok(ca, start as int, old(self).consumed() + 1) && final(self).consumed()
                        == old(self).consumed() + 1
                } else if n0 == b {
                    r == tok(cb, start as int, old(self).consumed() + 1) && final(self).consumed()
                        == old(self).consumed() + 1
                } else {
                    r == tok(single, start as int, old(self).consumed()) && final(self).consumed()
                        == old(self).consumed()
                }
            }),
    {
        proof {
            use_type_invariant(&*self);
        }
        let n0 = self.peek(0);
        if n0 == a {
            self.advance();
            self.single(ca, start)
        } else if n0 == b {
            self.advance();
            self.single(cb, start)
        } else {
            self.single(single, start)
        }
    }

    // `>` may begin `>`, `>>`, `>=`, `><`, `>>>`, `>>=`, `>>>=` or `>!<`.
    fn tokenize_greater(&mut self) -> (r: Option<Token>)
        requires
            old(self).consumed() >= 1,
        ensures
            final(self).source() == old(self).source(),
            ({
                let (cat, end) = greater_lexeme(old(self).source(), old(self).consumed() - 1);
                r == Some(tok(cat, old(self).consumed() - 1, end)) && final(self).consumed()
                    == end
            }),
    {
        proof {
            use_type_invariant(&*self);
        }
        let start = self.pos - 1;
        let next = self.peek(0);
        if next == '=' as u8 {
            self.advance();
            Some(self.single(Category::GreaterEqual, start))
        } else if next == '<' as u8 {
            self.advance();
            Some(self.single(Category::GreaterLess, start))
        } else if next == '>' as u8 {
            self.advance();
            let next = self.peek(0);
            if next == '>' as u8 {
                self.advance();
                if self.peek(0) == '=' as u8 {
                    self.advance();
                    return Some(self.single(Category::GreaterGreaterGreaterEqual, start));
                }
                Some(self.single(Category::GreaterGreaterGreater, start))
            } else if next == '=' as u8 {
                self.advance();
                Some(self.single(Category::GreaterGreaterEqual, start))
            } else {
                Some(self.single(Category::GreaterGreater, start))
            }
        } else if next == '!' as u8 && self.peek(1) == '<' as u8 {
            self.advance();
            self.advance();
            Some(self.single(Category::GreaterBangLess, start))
        } else {
            Some(self.single(Category::Greater, start))
        }
    }

    // `<` may begin `<`, `<<`, `<=` or `<<=`.
    fn tokenize_less(&mut self) -> (r: Option<Token>)
        requires
            old(self).consumed() >= 1,
        ensures
            final(self).source() == old(self).source(),
            ({
                let (cat, end) = less_lexeme(old(self).source(), old(self).consumed() - 1);
                r == Some(tok(cat, old(self).consumed() - 1, end)) && final(self).consumed()
                    == end
            }),
    {
        proof {
            use_type_invariant(&*self);
        }
        let start = self.pos - 1;
        let next = self.peek(0);
        if next == '=' as u8 {
            self.advance();
            Some(self.single(Category::LessEqual, start))
        } else if next == '<' as u8 {
            self.advance();
            if self.peek(0) == '=' as u8 {
                self.advance();
                Some(self.single(Category::LessLessEqual, start))
            } else {
                Some(self.single(Category::LessLess, start))
            }
        } else {
            Some(self.single(Category::Less, start))
        }
    }

    // Reads a string literal whose opening quote was just consumed; the token
    // covers the literal with its quotes.
    fn tokenize_string(&mut self, string_category: StringCategory) -> (r: Option<Token>)
        requires
            old(self).consumed() >= 1,
        ensures
            final(self).source() == old(self).source(),
            r is Some,
            final(self).consumed() >= old(self).consumed(),
            string_lexes(
                old(self).source(),
                old(self).consumed() - 1,
                string_category,
                r->Some_0,
                final(self).consumed(),
            ),
    {
        proof {
            use_type_invariant(&*self);
        }
        let start = self.pos;
        match string_category {
            StringCategory::Quotable => self.skip_quoted('\'' as u8),
            StringCategory::Unquotable => self.skip_quoted('"' as u8),
        }
        proof {
            use_type_invariant(&*self);
        }
        if self.pos >= self.code.len() {
            Some(
                self.single(
                    Category::Unclosed(UnclosedCategory::String(string_category)),
                    start - 1,
                ),
            )
        } else {
            let raw = copy_range(&self.code, start, self.pos);
            let text = match string_category {
                StringCategory::Quotable => text_from_bytes(&raw),
                StringCategory::Unquotable => text_from_bytes(&unescape_bytes(&raw)),
            };
            let result = Token { category: Category::String(text), position: (start - 1, self.pos + 1) };
            self.advance();
            Some(result)
        }
    }
}


pub proof fn lemma_scan_bounds(code: Seq<u8>, from: int, class: ByteClass)
    requires
        0 <= from <= code.len(),
    ensures
        from <= scan(code, from, class) <= code.len(),
        forall|k: int| from <= k < scan(code, from, class) ==> in_class(class, #[trigger] code[k]),
        scan(code, from, class) < code.len() ==> !in_class(class, code[scan(code, from, class)]),
    decreases code.len() - from,
{
    if from < code.len() && in_class(class, code[from]) {
        lemma_scan_bounds(code, from + 1, class);
    }
}

proof fn lemma_ident_ascii(code: Seq<u8>, start: int, end: int)
    requires
        0 <= start < end <= code.len(),
        is_letter(code[start]) || code[start] == '_' as u8,
        forall|k: int| start + 1 <= k < end ==> in_class(ByteClass::IdentChar, #[trigger] code[k]),
    ensures
        all_ascii(code.subrange(start, end)),
{
    assert forall|i: int| 0 <= i < end - start implies #[trigger] code.subrange(start, end)[i]
        < 128 by {
        if i > 0 {
            assert(in_class(ByteClass::IdentChar, code[start + i]));
        }
    }
}

impl Tokenizer {
    fn may_parse_ipv4(&mut self, base: Base, start: usize) -> (r: Option<Token>)
        requires
            start <= old(self).consumed(),
        ensures
            final(self).source() == old(self).source(),
            final(self).consumed() >= old(self).consumed(),
            if base == Base::Base10 && peek_at(old(self).source(), old(self).consumed()) == '.' as u8
                && is_decimal(peek_at(old(self).source(), old(self).consumed() + 1)) {
                r is Some && ipv4_lexes(
                    old(self).source(),
                    start as int,
                    old(self).consumed(),
                    r->Some_0,
                    final(self).consumed(),
                )
            } else {
                r is None && final(self).consumed() == old(self).consumed()
            },
    {
        proof {
            use_type_invariant(&*self);
        }
        if base == Base::Base10 && self.peek(0) == '.' as u8 && in_class_exec(
            ByteClass::Digit(Base::Base10),
            self.peek(1),
        ) {
            self.advance();
            self.skip_while(ByteClass::Digit(Base::Base10));
            if self.peek(0) == '.' as u8 && in_class_exec(
                ByteClass::Digit(Base::Base10),
                self.peek(1),
            ) {
                self.advance();
                self.skip_while(ByteClass::Digit(Base::Base10));
            } else {
                return Some(self.single(Category::IllegalIPv4Address, start));
            }
            if self.peek(0) == '.' as u8 && in_class_exec(
                ByteClass::Digit(Base::Base10),
                self.peek(1),
            ) {
                self.advance();
                self.skip_while(ByteClass::Digit(Base::Base10));
            } else {
                return Some(self.single(Category::IllegalIPv4Address, start));
            }
            Some(self.single(Category::IPv4Address, start))
        } else {
            None
        }
    }

    /// Reads a numeric literal whose first digit `current`, at `start`, was just
    /// consumed: a number in its base, an address, or one of the error tokens.
    pub fn tokenize_number(&mut self, start: usize, current: u8) -> (r: Option<Token>)
        requires
            start + 1 == old(self).consumed(),
            old(self).source()[start as int] == current,
            is_decimal(current),
        ensures
            final(self).source() == old(self).source(),
            final(self).consumed() >= old(self).consumed(),
            r is Some,
            number_lexes(old(self).source(), start as int, r->Some_0, final(self).consumed()),
    {
        proof {
            use_type_invariant(&*self);
        }
        let lexeme = start;
        let mut start = start;
        let may_base: Option<Base> = if current == '0' as u8 {
            let n0 = self.peek(0);
            if n0 == 'b' as u8 {
                self.advance();
                start = start + 2;
                Some(Base::Binary)
            } else if n0 == 'x' as u8 {
                self.advance();
                start = start + 2;
                Some(Base::Hex)
            } else if '0' as u8 <= n0 && n0 <= '7' as u8 {
                start = start + 1;
                Some(Base::Octal)
            } else if ('A' as u8 <= n0 && n0 <= 'Z' as u8) || ('a' as u8 <= n0 && n0 <= 'z' as u8) {
                None
            } else {
                Some(Base::Base10)
            }
        } else {
            Some(Base::Base10)
        };
        match may_base {
            Some(base) => {
                let ghost cur = self.consumed();
                self.skip_while(ByteClass::Digit(base));
                proof {
                    lemma_scan_bounds(self.source(), cur, ByteClass::Digit(base));
                }
                match self.may_parse_ipv4(base, lexeme) {
                    Some(token) => Some(token),
                    None => {
                        if start == self.pos {
                            Some(self.single(Category::IllegalNumber(base), lexeme))
                        } else {
                            proof {
                                use_type_invariant(&*self);
                            }
                            match parse_digits(&self.code, start, self.pos, base) {
                                Some(num) => Some(self.single(Category::Number(num), lexeme)),
                                None => Some(self.single(Category::IllegalNumber(base), lexeme)),
                            }
                        }
                    },
                }
            },
            None => Some(self.single(Category::UnknownBase, lexeme)),
        }
    }

    // Reads a name or keyword whose first byte, at `start`, was just consumed.
    fn tokenize_identifier(&mut self, start: usize) -> (r: Option<Token>)
        requires
            start + 1 == old(self).consumed(),
            is_letter(old(self).source()[start as int]) || old(self).source()[start as int]
                == '_' as u8,
        ensures
            final(self).source() == old(self).source(),
            final(self).consumed() >= old(self).consumed(),
            r is Some,
            identifier_lexes(old(self).source(), start as int, r->Some_0, final(self).consumed()),
    {
        proof {
            use_type_invariant(&*self);
        }
        let ghost code = self.source();
        self.skip_while(ByteClass::IdentChar);
        proof {
            lemma_scan_bounds(code, start + 1, ByteClass::IdentChar);
            use_type_invariant(&*self);
        }
        let end = self.pos;
        let word = copy_range(&self.code, start, end);
        proof {
            lemma_ident_ascii(code, start as int, end as int);
        }
        let cat = if end - start == 1 && word[0] == 'x' as u8 {
            assert(word@ =~= seq!['x' as u8]);
            self.skip_whitespace();
            if in_class_exec(ByteClass::Digit(Base::Base10), self.peek(0)) {
                Category::X
            } else {
                let text = crate::value::bytes_to_str(word.as_slice());
                assert(ascii_chars(word@) =~= seq!['x']);
                Category::Identifier(IdentifierType::Undefined(text))
            }
        } else {
            assert(word@ != seq!['x' as u8]) by {
                if word@.len() == 1 {
                    assert(word@[0] == word[0]);
                }
            }
            match keyword_exec(&word) {
                Some(keyword) => Category::Identifier(keyword),
                None => {
                    let text = crate::value::bytes_to_str(word.as_slice());
                    assert(crate::value::latin1(word@) =~= ascii_chars(word@));
                    Category::Identifier(IdentifierType::Undefined(text))
                },
            }
        };
        Some(Token { category: cat, position: (start, end) })
    }

    /// Reads the next token after any whitespace; `None` at the end of the
    /// source.
    pub fn next_token(&mut self) -> (r: Option<Token>)
        ensures
            final(self).source() == old(self).source(),
            ({
                let ws = skip_space(old(self).source(), old(self).consumed());
                if ws >= old(self).source().len() {
                    r is None && final(self).consumed() == ws
                } else {
                    &&& r is Some
                    &&& lexes(old(self).source(), ws, r->Some_0, final(self).consumed())
                    &&& final(self).consumed() > ws
                }
            }),
    {
        proof {
            use_type_invariant(&*self);
        }
        self.skip_whitespace();
        let start = self.pos;
        let c = match self.advance() {
            None => {
                return None;
            },
            Some(c) => c,
        };
        if c == '(' as u8 {
            Some(self.single(Category::LeftParen, start))
        } else if c == ')' as u8 {
            Some(self.single(Category::RightParen, start))
        } else if c == '[' as u8 {
            Some(self.single(Category::LeftBrace, start))
        } else if c == ']' as u8 {
            Some(self.single(Category::RightBrace, start))
        } else if c == '{' as u8 {
            Some(self.single(Category::LeftCurlyBracket, start))
        } else if c == '}' as u8 {
            Some(self.single(Category::RightCurlyBracket, start))
        } else if c == ',' as u8 {
            Some(self.single(Category::Comma, start))
        } else if c == '.' as u8 {
            Some(self.single(Category::Dot, start))
        } else if c == ';' as u8 {
            Some(self.single(Category::Semicolon, start))
        } else if c == ':' as u8 {
            Some(self.single(Category::DoublePoint, start))
        } else if c == '~' as u8 {
            Some(self.single(Category::Tilde, start))
        } else if c == '^' as u8 {
            Some(self.single(Category::Caret, start))
        } else if c == '-' as u8 {
            Some(
                self.three_symbol(
                    start,
                    Category::Minus,
                    '-' as u8,
                    Category::MinusMinus,
                    '=' as u8,
                    Category::MinusEqual,
                ),
            )
        } else if c == '+' as u8 {
            Some(
                self.three_symbol(
                    start,
                    Category::Plus,
                    '+' as u8,
                    Category::PlusPlus,
                    '=' as u8,
                    Category::PlusEqual,
                ),
            )
        } else if c == '%' as u8 {
            Some(self.two_symbol(start, Category::Percent, '=' as u8, Category::PercentEqual))
        } else if c == '/' as u8 {
            Some(self.two_symbol(start, Category::Slash, '=' as u8, Category::SlashEqual))
        } else if c == '*' as u8 {
            Some(
                self.three_symbol(
                    start,
                    Category::Star,
                    '*' as u8,
                    Category::StarStar,
                    '=' as u8,
                    Category::StarEqual,
                ),
            )
        } else if c == '&' as u8 {
            Some(
                self.two_symbol(start, Category::Ampersand, '&' as u8, Category::AmpersandAmpersand),
            )
        } else if c == '|' as u8 {
            Some(self.two_symbol(start, Category::Pipe, '|' as u8, Category::PipePipe))
        } else if c == '!' as u8 {
            Some(
                self.three_symbol(
                    start,
                    Category::Bang,
                    '=' as u8,
                    Category::BangEqual,
                    '~' as u8,
                    Category::BangTilde,
                ),
            )
        } else if c == '=' as u8 {
            Some(
                self.three_symbol(
                    start,
                    Category::Equal,
                    '=' as u8,
                    Category::EqualEqual,
                    '~' as u8,
                    Category::EqualTilde,
                ),
            )
        } else if c == '>' as u8 {
            self.tokenize_greater()
        } else if c == '<' as u8 {
            self.tokenize_less()
        } else if c == '#' as u8 {
            self.skip_while(ByteClass::NotNewline);
            Some(self.single(Category::Comment, start))
        } else if c == '"' as u8 {
            self.tokenize_string(StringCategory::Unquotable)
        } else if c == '\'' as u8 {
            self.tokenize_string(StringCategory::Quotable)
        } else if '0' as u8 <= c && c <= '9' as u8 {
            self.tokenize_number(start, c)
        } else if ('A' as u8 <= c && c <= 'Z' as u8) || ('a' as u8 <= c && c <= 'z' as u8) || c
            == '_' as u8 {
            self.tokenize_identifier(start)
        } else {
            self.skip_char_rest(c);
            Some(self.single(Category::UnknownSymbol, start))
        }
    }

    // Consumes the continuation bytes of the character whose first byte `c` was
    // just read.
    fn skip_char_rest(&mut self, c: u8)
        requires
            old(self).consumed() >= 1,
            old(self).source()[old(self).consumed() - 1] == c,
        ensures
            final(self).source() == old(self).source(),
            final(self).consumed() == char_end(old(self).source(), old(self).consumed() - 1),
    {
        proof {
            use_type_invariant(&*self);
        }
        let w: usize = if c < 0xc0u8 {
            1
        } else if c < 0xe0u8 {
            2
        } else if c < 0xf0u8 {
            3
        } else {
            4
        };
        let start = self.pos - 1;
        if w <= self.code.len() - start {
            self.pos = start + w;
        } else {
            self.pos = self.code.len();
        }
    }

    /// All tokens from the current position to the end of the source.
    pub fn tokens(&self) -> (r: Vec<Token>)
        ensures
            exists|end: int|
                lexes_run(self.source(), self.consumed(), r@, end) && skip_space(self.source(), end) >= self.source().len(),
    {
        proof {
            use_type_invariant(self);
        }
        let mut t = Tokenizer { code: copy_range(&self.code, 0, self.code.len()), pos: self.pos };
        proof {
            assert(self.code@.subrange(0, self.code@.len() as int) =~= self.code@);
        }
        let mut out: Vec<Token> = Vec::new();
        loop
            invariant
                t.source() == self.source(),
                self.consumed() <= t.consumed() <= self.source().len(),
                lexes_run(self.source(), self.consumed(), out@, t.consumed()),
            decreases self.source().len() - t.consumed(),
        {
            proof {
                use_type_invariant(&t);
                lemma_skip_space_bounds(t.source(), t.consumed());
            }
            let ghost mid = t.consumed();
            let ghost before = out@;
            match t.next_token() {
                None => {
                    return out;
                },
                Some(token) => {
                    let ghost gt = token;
                    out.push(token);
                    proof {
                        use_type_invariant(&t);
                        assert(out@.drop_last() =~= before);
                        assert(out@.last() == gt);
                        assert(lexes_run(self.source(), self.consumed(), out@.drop_last(), mid));
                        assert(lexes(
                            self.source(),
                            skip_space(self.source(), mid),
                            out@.last(),
                            t.consumed(),
                        ));
                    }
                },
            }
        }
    }
}

} // verus!
