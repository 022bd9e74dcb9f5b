//! Parser for Solidity source maps.
//!
//! A source map is a list of elements `s:l:f:j:m` separated by `;`, where a
//! missing field repeats the value of the previous element.
//! See <https://docs.soliditylang.org/en/latest/internals/source_mappings.html#source-mappings>.

use crate::text::{
    all_digits, chars_of, dec, dec_signed, digit_value, digits_value, is_ascii_digit, is_digit,
    owned, push_chars, push_decimal, push_signed, push_str, slice_chars, string_push,
};
use vstd::prelude::*;

verus! {

/// An error that can happen during source map parsing.
#[derive(Debug)]
pub struct SyntaxError(String);

impl View for SyntaxError {
    type V = Seq<char>;

    closed spec fn view(&self) -> Seq<char> {
        self.0@
    }
}

impl SyntaxError {
    /// Creates an error with the given message.
    pub fn new(s: String) -> (r: Self)
        ensures
            r@ == s@,
    {
        SyntaxError(s)
    }

    /// The error message.
    pub fn to_string(&self) -> (r: String)
        ensures
            r@ == self@,
    {
        self.0.clone()
    }
}

impl Clone for SyntaxError {
    fn clone(&self) -> (r: Self)
        ensures
            r@ == self@,
    {
        SyntaxError(self.0.clone())
    }
}

/// The kind of jump an instruction performs.
#[derive(Clone, Copy, Debug, PartialEq, Eq, Hash, Structural)]
pub enum Jump {
    /// A jump instruction that goes into a function
    In,
    /// A jump  represents an instruction that returns from a function
    Out,
    /// A regular jump instruction
    Regular,
}

impl Jump {
    /// The two-bit code of the jump, as stored in a [`SourceElement`].
    pub open spec fn code(self) -> u32 {
        match self {
            Jump::In => 0,
            Jump::Out => 1,
            Jump::Regular => 2,
        }
    }

    /// The jump with the given code (codes above 2 have no jump).
    pub open spec fn of_code(i: u32) -> Jump {
        if i == 0 {
            Jump::In
        } else if i == 1 {
            Jump::Out
        } else {
            Jump::Regular
        }
    }

    /// The symbol of the jump in a source map: `i`, `o` or `-`.
    pub open spec fn symbol(self) -> Seq<char> {
        match self {
            Jump::In => "i"@,
            Jump::Out => "o"@,
            Jump::Regular => "-"@,
        }
    }

    fn to_int(self) -> (r: u32)
        ensures
            r == self.code(),
    {
        match self {
            Jump::In => 0,
            Jump::Out => 1,
            Jump::Regular => 2,
        }
    }

    fn from_int(i: u32) -> (r: Self)
        requires
            i < 3,
        ensures
            r == Jump::of_code(i),
            r.code() == i,
    {
        if i == 0 {
            Jump::In
        } else if i == 1 {
            Jump::Out
        } else {
            Jump::Regular
        }
    }

    /// The symbol of the jump: `i`, `o` or `-`.
    pub fn as_str(&self) -> (r: &'static str)
        ensures
            r@ == self.symbol(),
    {
        match self {
            Jump::In => "i",
            Jump::Out => "o",
            Jump::Regular => "-",
        }
    }

    /// The symbol of the jump as a string.
    pub fn to_string(&self) -> (r: String)
        ensures
            r@ == self.symbol(),
    {
        owned(self.as_str())
    }
}

/// Every jump code is below 3 and decodes back to its jump.
pub proof fn lemma_jump_code_roundtrip(j: Jump)
    ensures
        j.code() < 3,
        Jump::of_code(j.code()) == j,
{
}

/// A Solidity source map, which is composed of multiple [`SourceElement`]s, separated by
/// semicolons.
pub type SourceMap = Vec<SourceElement>;

/// The fields of a [`SourceElement`], as plain values.
pub struct ElementModel {
    pub offset: u32,
    pub length: u32,
    pub index: i32,
    /// 2 bits for the jump code, 30 bits for the modifier depth
    pub jump_and_modifier_depth: u32,
}

impl ElementModel {
    /// The jump code: the two high bits.
    pub open spec fn jump_bits(self) -> u32 {
        self.jump_and_modifier_depth >> 30u32
    }

    /// The modifier depth: the 30 low bits.
    pub open spec fn modifier_depth(self) -> u32 {
        ((self.jump_and_modifier_depth << 2u32) >> 2u32) as u32
    }

    /// The element with both jump and modifier depth replaced.
    pub open spec fn with_jump_and_depth(self, code: u32, depth: u32) -> ElementModel {
        ElementModel { jump_and_modifier_depth: ((code << 30u32) | depth) as u32, ..self }
    }

    /// Whether the jump bits hold a jump (they can hold 3 only after a modifier
    /// depth of 2^30 or more was stored).
    pub open spec fn has_valid_jump(self) -> bool {
        self.jump_bits() < 3
    }
}

/// The element with default values: no source (`-1`), regular-in jump code 0.
pub open spec fn invalid_model() -> ElementModel {
    ElementModel { offset: 0, length: 0, index: -1i32, jump_and_modifier_depth: 0 }
}

/// A single element in a [`SourceMap`].
#[derive(Clone, Copy, Debug, PartialEq, Eq, Hash, Structural)]
pub struct SourceElement {
    offset: u32,
    length: u32,
    index: i32,
    // 2 bits for jump, 30 bits for modifier depth; see [set_jump_and_modifier_depth]
    jump_and_modifier_depth: u32,
}

impl View for SourceElement {
    type V = ElementModel;

    closed spec fn view(&self) -> ElementModel {
        ElementModel {
            offset: self.offset,
            length: self.length,
            index: self.index,
            jump_and_modifier_depth: self.jump_and_modifier_depth,
        }
    }
}

proof fn lemma_bits(x: u32)
    ensures
        x >> 30u32 < 4,
        ((x << 2u32) >> 2u32) < 0x4000_0000,
{
    assert(x >> 30u32 < 4) by (bit_vector);
    assert(((x << 2u32) >> 2u32) < 0x4000_0000) by (bit_vector);
}

/// Packing a jump code and a depth below 2^30, then reading them back, gives
/// the same code and depth.
pub proof fn lemma_pack_roundtrip(code: u32, depth: u32)
    requires
        code < 4,
        depth < 0x4000_0000,
    ensures
        ((code << 30u32) | depth) >> 30u32 == code,
        ((((code << 30u32) | depth) << 2u32) >> 2u32) == depth,
{
    assert(((code << 30u32) | depth) >> 30u32 == code) by (bit_vector)
        requires
            code < 4,
            depth < 0x4000_0000,
    ;
    assert(((((code << 30u32) | depth) << 2u32) >> 2u32) == depth) by (bit_vector)
        requires
            code < 4,
            depth < 0x4000_0000,
    ;
}

impl SourceElement {
    /// Creates a new source element with default values.
    pub fn new_invalid() -> (r: Self)
        ensures
            r@ == invalid_model(),
    {
        Self { offset: 0, length: 0, index: -1i32, jump_and_modifier_depth: 0 }
    }

    /// The byte-offset to the start of the range in the source file.
    pub fn offset(&self) -> (r: u32)
        ensures
            r == self@.offset,
    {
        self.offset
    }

    /// The length of the source range in bytes.
    pub fn length(&self) -> (r: u32)
        ensures
            r == self@.length,
    {
        self.length
    }

    /// The source index; `None` for the identifier -1, used for instructions
    /// that belong to no source file.
    pub fn index(&self) -> (r: Option<u32>)
        ensures
            self@.index == -1 ==> r is None,
            self@.index != -1 ==> r == Some(self@.index as u32),
    {
        if self.index == -1 {
            None
        } else {
            Some(self.index as u32)
        }
    }

    /// The source index, -1 standing for no source file.
    pub fn index_i32(&self) -> (r: i32)
        ensures
            r == self@.index,
    {
        self.index
    }

    /// Jump instruction.
    pub fn jump(&self) -> (r: Jump)
        requires
            self@.has_valid_jump(),
        ensures
            r == Jump::of_code(self@.jump_bits()),
            r.code() == self@.jump_bits(),
    {
        proof {
            lemma_bits(self.jump_and_modifier_depth);
        }
        Jump::from_int(self.jump_and_modifier_depth >> 30)
    }

    fn set_jump(&mut self, jump: Jump)
        ensures
            final(self)@ == old(self)@.with_jump_and_depth(jump.code(), old(self)@.modifier_depth()),
            final(self)@.jump_bits() == jump.code(),
            final(self)@.modifier_depth() == old(self)@.modifier_depth(),
    {
        let m = self.modifier_depth();
        proof {
            lemma_bits(self.jump_and_modifier_depth);
            lemma_pack_roundtrip(jump.code(), m);
        }
        self.set_jump_and_modifier_depth(jump, m);
    }

    /// Modifier depth.
    ///
    /// This depth is increased whenever the placeholder statement (`_`) is entered in a modifier
    /// and decreased when it is left again.
    pub fn modifier_depth(&self) -> (r: u32)
        ensures
            r == self@.modifier_depth(),
            r < 0x4000_0000,
    {
        proof {
            lemma_bits(self.jump_and_modifier_depth);
        }
        (self.jump_and_modifier_depth << 2) >> 2
    }

    fn set_modifier_depth(&mut self, modifier_depth: u32)
        requires
            old(self)@.has_valid_jump(),
        ensures
            final(self)@ == old(self)@.with_jump_and_depth(old(self)@.jump_bits(), modifier_depth),
    {
        let j = self.jump();
        self.set_jump_and_modifier_depth(j, modifier_depth);
    }

    fn set_jump_and_modifier_depth(&mut self, jump: Jump, modifier_depth: u32)
        ensures
            final(self)@ == old(self)@.with_jump_and_depth(jump.code(), modifier_depth),
    {
        self.jump_and_modifier_depth = (jump.to_int() << 30) | modifier_depth;
    }

    /// The element as `offset:length:index:jump:modifier_depth`.
    pub fn to_string(&self) -> (r: String)
        requires
            self@.has_valid_jump(),
        ensures
            r@ == element_text(self@),
    {
        let mut s = String::new();
        push_decimal(&mut s, self.offset as u64);
        string_push(&mut s, ':');
        push_decimal(&mut s, self.length as u64);
        string_push(&mut s, ':');
        push_signed(&mut s, self.index as i64);
        string_push(&mut s, ':');
        let j = self.jump();
        push_str(&mut s, j.as_str());
        string_push(&mut s, ':');
        push_decimal(&mut s, self.modifier_depth() as u64);
        assert(s@ =~= element_text(self@));
        s
    }
}

/// The text of an element: `offset:length:index:jump:modifier_depth`.
pub open spec fn element_text(e: ElementModel) -> Seq<char> {
    dec(e.offset as nat) + seq![':'] + dec(e.length as nat) + seq![':'] + dec_signed(e.index as int)
        + seq![':'] + Jump::of_code(e.jump_bits()).symbol() + seq![':'] + dec(
        e.modifier_depth() as nat,
    )
}

/// Storing a jump and then a depth below 2^30 in an element reads both back unchanged.
pub proof fn lemma_element_jump_depth(e: ElementModel, j: Jump, depth: u32)
    requires
        depth < 0x4000_0000,
    ensures
        e.with_jump_and_depth(j.code(), depth).has_valid_jump(),
        Jump::of_code(e.with_jump_and_depth(j.code(), depth).jump_bits()) == j,
        e.with_jump_and_depth(j.code(), depth).modifier_depth() == depth,
{
    lemma_pack_roundtrip(j.code(), depth);
}


/// A token of a source map.
#[derive(PartialEq, Eq, Structural)]
pub enum Token {
    /// A number, given by its span `[start, end)` of characters in the input.
    Number(usize, usize),
    Semicolon,
    Colon,
    /// `i` which represents an instruction that goes into a function
    In,
    /// `o` which represents an instruction that returns from a function
    Out,
    /// `-` regular jump
    Regular,
}

/// What the lexer finds at a position.
pub enum Lexed {
    /// The input is exhausted.
    End,
    /// A token starting at the first position, continuing up to the second.
    Tok(Token, int, int),
    /// An unexpected character at the given position.
    Bad(char, int),
}

/// The end of the run of digits starting at `j`.
pub open spec fn digits_end(s: Seq<char>, j: int) -> int
    decreases s.len() - j,
{
    if 0 <= j < s.len() && is_digit(s[j]) {
        digits_end(s, j + 1)
    } else {
        j
    }
}

/// The token at position `p`, if any.
pub open spec fn lex(s: Seq<char>, p: int) -> Lexed {
    if p < 0 || p >= s.len() {
        Lexed::End
    } else {
        let c = s[p];
        if c == ';' {
            Lexed::Tok(Token::Semicolon, p, p + 1)
        } else if c == ':' {
            Lexed::Tok(Token::Colon, p, p + 1)
        } else if c == 'i' {
            Lexed::Tok(Token::In, p, p + 1)
        } else if c == 'o' {
            Lexed::Tok(Token::Out, p, p + 1)
        } else if c == '-' {
            if p + 1 < s.len() && is_digit(s[p + 1]) {
                Lexed::Tok(Token::Number(p as usize, digits_end(s, p + 2) as usize), p, digits_end(s, p + 2))
            } else {
                Lexed::Tok(Token::Regular, p, p + 1)
            }
        } else if is_digit(c) {
            Lexed::Tok(Token::Number(p as usize, digits_end(s, p + 1) as usize), p, digits_end(s, p + 1))
        } else {
            Lexed::Bad(c, p)
        }
    }
}

/// The message for an unexpected character.
pub open spec fn msg_unexpected(c: char, i: int) -> Seq<char> {
    "Unexpected input "@ + seq![c] + " at "@ + dec(i as nat)
}

pub proof fn lemma_digits_end(s: Seq<char>, j: int)
    requires
        0 <= j <= s.len(),
    ensures
        j <= digits_end(s, j) <= s.len(),
        forall|k: int| j <= k < digits_end(s, j) ==> is_digit(#[trigger] s[k]),
        digits_end(s, j) < s.len() ==> !is_digit(s[digits_end(s, j)]),
    decreases s.len() - j,
{
    if j < s.len() && is_digit(s[j]) {
        lemma_digits_end(s, j + 1);
    }
}

proof fn lemma_lex_advances(s: Seq<char>, p: int)
    requires
        0 <= p,
        s.len() <= usize::MAX,
    ensures
        lex(s, p) matches Lexed::Tok(_, start, next) ==> start == p && p < next <= s.len(),
        lex(s, p) matches Lexed::Tok(Token::Number(a, e), _, next) ==> a == p && e == next,
        lex(s, p) matches Lexed::Bad(_, i) ==> i == p && p < s.len(),
{
    if p < s.len() {
        if s[p] == '-' && p + 1 < s.len() && is_digit(s[p + 1]) {
            lemma_digits_end(s, p + 2);
        } else if is_digit(s[p]) {
            lemma_digits_end(s, p + 1);
        }
    }
}

/// Reads the tokens of a source map, one at a time.
pub struct TokenStream {
    chars: Vec<char>,
    pos: usize,
}

impl TokenStream {
    /// The characters of the input.
    pub closed spec fn input(&self) -> Seq<char> {
        self.chars@
    }

    /// The position of the next character to read.
    pub closed spec fn position(&self) -> int {
        self.pos as int
    }

    /// Creates a stream at the start of `input`.
    pub fn new(input: &str) -> (r: Self)
        ensures
            r.input() == input@,
            r.position() == 0,
    {
        TokenStream { chars: chars_of(input), pos: 0 }
    }

    fn number(&mut self, start: usize, end: usize) -> (r: (Token, usize))
        requires
            start < end <= old(self).chars@.len(),
            old(self).pos == end,
        ensures
            r == (Token::Number(start, digits_end(old(self).chars@, end as int) as usize), start),
            final(self).pos == digits_end(old(self).chars@, end as int),
            final(self).chars@ == old(self).chars@,
    {
        proof {
            lemma_digits_end(self.chars@, end as int);
        }
        while self.pos < self.chars.len() && is_ascii_digit(self.chars[self.pos])
            invariant
                end <= self.pos <= self.chars@.len(),
                self.chars@ == old(self).chars@,
                digits_end(self.chars@, self.pos as int) == digits_end(self.chars@, end as int),
            decreases self.chars@.len() - self.pos,
        {
            self.pos = self.pos + 1;
        }
        (Token::Number(start, self.pos), start)
    }

    /// The next token and its position, or the error for an unexpected character.
    pub fn next(&mut self) -> (r: Option<Result<(Token, usize), SyntaxError>>)
        requires
            old(self).position() <= old(self).input().len(),
        ensures
            final(self).input() == old(self).input(),
            final(self).position() <= final(self).input().len(),
            match lex(old(self).input(), old(self).position()) {
                Lexed::End => r is None && final(self).position() == old(self).position(),
                Lexed::Bad(c, i) => r matches Some(Err(e)) && e@ == msg_unexpected(c, i)
                    && final(self).position() == i + 1,
                Lexed::Tok(t, start, next) => r matches Some(Ok((t2, p))) && t2 == t && p
                    == start && final(self).position() == next,
            },
    {
        let n = self.chars.len();
        proof {
            lemma_lex_advances(self.chars@, self.pos as int);
        }
        if self.pos >= n {
            return None;
        }
        let i = self.pos;
        let c = self.chars[i];
        self.pos = i + 1;
        if c == ';' {
            Some(Ok((Token::Semicolon, i)))
        } else if c == ':' {
            Some(Ok((Token::Colon, i)))
        } else if c == 'i' {
            Some(Ok((Token::In, i)))
        } else if c == 'o' {
            Some(Ok((Token::Out, i)))
        } else if c == '-' {
            if i + 1 < self.chars.len() && is_ascii_digit(self.chars[i + 1]) {
                self.pos = i + 2;
                Some(Ok(self.number(i, i + 2)))
            } else {
                Some(Ok((Token::Regular, i)))
            }
        } else if is_ascii_digit(c) {
            Some(Ok(self.number(i, i + 1)))
        } else {
            let mut m = owned("Unexpected input ");
            string_push(&mut m, c);
            push_str(&mut m, " at ");
            push_decimal(&mut m, i as u64);
            Some(Err(SyntaxError::new(m)))
        }
    }
}


/// What a number token stands for.
pub enum NumberValue {
    /// Not a valid `i64`.
    Invalid,
    /// A negative identifier below -1.
    Negative(int),
    /// The identifier -1.
    NoSource,
    /// A value of zero or more, truncated to 32 bits.
    Value(u32),
}

/// The integer written by a number token: digits, optionally preceded by `-`.
pub open spec fn number_int(t: Seq<char>) -> int {
    if t.len() > 0 && t[0] == '-' {
        -(digits_value(t.skip(1)) as int)
    } else {
        digits_value(t) as int
    }
}

/// The meaning of a number token.
pub open spec fn number_value(t: Seq<char>) -> NumberValue {
    let v = number_int(t);
    if v < i64::MIN || v > i64::MAX {
        NumberValue::Invalid
    } else if v < -1 {
        NumberValue::Negative(v)
    } else if v == -1 {
        NumberValue::NoSource
    } else {
        NumberValue::Value(v as u32)
    }
}

/// Whether `t` has the shape of a number token.
pub open spec fn is_number_token(t: Seq<char>) -> bool {
    ||| t.len() > 0 && all_digits(t)
    ||| t.len() > 1 && t[0] == '-' && all_digits(t.skip(1))
}

/// The message for a number that is not a valid `i64`.
pub open spec fn msg_invalid(t: Seq<char>, pos: int) -> Seq<char> {
    "Expected "@ + t + " to be a valid integer at "@ + dec(pos as nat)
}

/// The message for a negative identifier below -1.
pub open spec fn msg_negative(v: int, pos: int) -> Seq<char> {
    "Unexpected negative identifier of `"@ + dec_signed(v) + "` at "@ + dec(pos as nat)
}

/// Reads the number `chars[start..end]`: `Ok(None)` for -1, `Ok(Some(v))` for
/// `v >= 0` truncated to 32 bits.
fn parse_number(chars: &Vec<char>, start: usize, end: usize, pos: usize) -> (r: Result<
    Option<u32>,
    SyntaxError,
>)
    requires
        start < end <= chars@.len(),
        is_number_token(chars@.subrange(start as int, end as int)),
    ensures
        match number_value(chars@.subrange(start as int, end as int)) {
            NumberValue::Invalid => r matches Err(e) && e@ == msg_invalid(
                chars@.subrange(start as int, end as int),
                pos as int,
            ),
            NumberValue::Negative(v) => r matches Err(e) && e@ == msg_negative(v, pos as int),
            NumberValue::NoSource => r == Ok::<Option<u32>, SyntaxError>(None),
            NumberValue::Value(v) => r == Ok::<Option<u32>, SyntaxError>(Some(v)),
        },
{
    let ghost t = chars@.subrange(start as int, end as int);
    let neg = chars[start] == '-';
    let first: usize = if neg {
        start + 1
    } else {
        start
    };
    let ghost u = chars@.subrange(first as int, end as int);
    assert(neg ==> u =~= t.skip(1));
    assert(!neg ==> u =~= t);
    let mut acc: u128 = 0;
    let mut i: usize = first;
    while i < end
        invariant
            first <= i <= end,
            end <= chars@.len(),
            u == chars@.subrange(first as int, end as int),
            all_digits(u),
            acc <= 0x8000_0000_0000_0000 ==> acc as nat == digits_value(
                chars@.subrange(first as int, i as int),
            ),
            acc > 0x8000_0000_0000_0000 ==> digits_value(chars@.subrange(first as int, i as int))
                > 0x8000_0000_0000_0000,
            acc <= 0x8000_0000_0000_0000 * 10 + 9,
        decreases end - i,
    {
        let c = chars[i];
        assert(c == u[i - first]);
        let ghost pre = chars@.subrange(first as int, i as int);
        let ghost nxt = chars@.subrange(first as int, i + 1);
        assert(nxt.drop_last() =~= pre);
        assert(nxt.last() == c);
        let d: u128 = (c as u32 - '0' as u32) as u128;
        if acc <= 0x8000_0000_0000_0000 {
            acc = acc * 10 + d;
        } else {
            assert(digits_value(nxt) >= digits_value(pre) * 10) by (nonlinear_arith)
                requires
                    digits_value(nxt) == digits_value(pre) * 10 + digit_value(c),
            ;
            assert(digits_value(nxt) > 0x8000_0000_0000_0000) by (nonlinear_arith)
                requires
                    digits_value(nxt) >= digits_value(pre) * 10,
                    digits_value(pre) > 0x8000_0000_0000_0000,
            ;
        }
        i = i + 1;
    }
    assert(chars@.subrange(first as int, end as int) == u);
    if neg {
        if acc > 0x8000_0000_0000_0000 {
            let mut m = owned("Expected ");
            let text = slice_chars(chars, start, end);
            push_chars(&mut m, text.as_slice());
            push_str(&mut m, " to be a valid integer at ");
            push_decimal(&mut m, pos as u64);
            return Err(SyntaxError::new(m));
        }
        if acc >= 2 {
            let v: i64 = if acc == 0x8000_0000_0000_0000 {
                i64::MIN
            } else {
                -(acc as i64)
            };
            let mut m = owned("Unexpected negative identifier of `");
            push_signed(&mut m, v);
            push_str(&mut m, "` at ");
            push_decimal(&mut m, pos as u64);
            return Err(SyntaxError::new(m));
        }
        if acc == 1 {
            return Ok(None);
        }
        Ok(Some(0))
    } else {
        if acc > 0x7fff_ffff_ffff_ffff {
            let mut m = owned("Expected ");
            let text = slice_chars(chars, start, end);
            push_chars(&mut m, text.as_slice());
            push_str(&mut m, " to be a valid integer at ");
            push_decimal(&mut m, pos as u64);
            return Err(SyntaxError::new(m));
        }
        Ok(Some(#[verifier::truncate] (acc as u32)))
    }
}


/// The fields read so far for one element; each field may be set once.
#[derive(Clone, Copy, PartialEq, Eq, Structural)]
pub struct SourceElementBuilder {
    pub offset: Option<u32>,
    pub length: Option<u32>,
    pub index: Option<Option<u32>>,
    pub jump: Option<Jump>,
    pub modifier_depth: Option<u32>,
}

/// A builder with no field set.
pub open spec fn empty_builder() -> SourceElementBuilder {
    SourceElementBuilder {
        offset: None,
        length: None,
        index: None,
        jump: None,
        modifier_depth: None,
    }
}

/// The text of an offset, length or modifier depth field: `-1` when the element
/// has no source.
pub open spec fn field_text(b: SourceElementBuilder, v: Option<u32>) -> Seq<char> {
    match v {
        Some(x) => if b.index == Some(None::<u32>) {
            seq!['-', '1']
        } else {
            dec(x as nat)
        },
        None => Seq::empty(),
    }
}

/// The text of the source index field.
pub open spec fn index_text(v: Option<Option<u32>>) -> Seq<char> {
    match v {
        Some(Some(x)) => dec(x as nat),
        Some(None) => seq!['-', '1'],
        None => Seq::empty(),
    }
}

/// The text of the jump field.
pub open spec fn jump_text(v: Option<Jump>) -> Seq<char> {
    match v {
        Some(j) => j.symbol(),
        None => Seq::empty(),
    }
}

/// The text of a builder in source map syntax, with trailing empty fields left out.
pub open spec fn builder_text(b: SourceElementBuilder) -> Seq<char> {
    if b.offset is None && b.length is None && b.index is None && b.jump is None
        && b.modifier_depth is None {
        Seq::empty()
    } else {
        field_text(b, b.offset) + text_from_length(b)
    }
}

/// The text from the separator before the length on.
pub open spec fn text_from_length(b: SourceElementBuilder) -> Seq<char> {
    if b.length is None && b.index is None && b.jump is None && b.modifier_depth is None {
        Seq::empty()
    } else {
        seq![':'] + field_text(b, b.length) + text_from_index(b)
    }
}

/// The text from the separator before the source index on.
pub open spec fn text_from_index(b: SourceElementBuilder) -> Seq<char> {
    if b.index is None && b.jump is None && b.modifier_depth is None {
        Seq::empty()
    } else {
        seq![':'] + index_text(b.index) + text_from_jump(b)
    }
}

/// The text from the separator before the jump on.
pub open spec fn text_from_jump(b: SourceElementBuilder) -> Seq<char> {
    if b.jump is None && b.modifier_depth is None {
        Seq::empty()
    } else {
        seq![':'] + jump_text(b.jump) + text_from_modifier(b)
    }
}

/// The text from the separator before the modifier depth on.
pub open spec fn text_from_modifier(b: SourceElementBuilder) -> Seq<char> {
    if b.modifier_depth is None {
        Seq::empty()
    } else {
        seq![':'] + field_text(b, b.modifier_depth)
    }
}

/// The model of an optional element.
pub open spec fn model_of(e: Option<SourceElement>) -> Option<ElementModel> {
    match e {
        Some(x) => Some(x@),
        None => None,
    }
}

/// The outcome of building an element, as executed.
pub enum Built {
    Element(SourceElement),
    Error(SyntaxError),
    /// Reading the jump of the previous element fails (its jump bits hold 3).
    Panicked,
}

/// The outcome of building an element.
pub enum Finish {
    Done(ElementModel),
    Failed(Seq<char>),
    /// Reading the jump of the previous element fails (its jump bits hold 3).
    Panics,
}

/// The error for a modifier depth that does not fit in the 30 bits kept for it.
pub open spec fn msg_depth(m: u32) -> Seq<char> {
    "Modifier depth out of range: "@ + dec(m as nat)
}

/// The element made from a builder: unset fields repeat those of the previous
/// element, and are an error when there is none (the modifier depth is optional).
pub open spec fn finish(b: SourceElementBuilder, prev: Option<ElementModel>) -> Finish {
    let no_prev = prev is None;
    let e0 = match prev {
        Some(e) => e,
        None => invalid_model(),
    };
    if no_prev && b.offset is None {
        Finish::Failed("No previous offset"@)
    } else if no_prev && b.length is None {
        Finish::Failed("No previous length"@)
    } else if no_prev && b.index is None {
        Finish::Failed("No previous index"@)
    } else if no_prev && b.jump is None {
        Finish::Failed("No previous jump"@)
    } else {
        let e1 = match b.offset {
            Some(o) => ElementModel { offset: o, ..e0 },
            None => e0,
        };
        let e2 = match b.length {
            Some(l) => ElementModel { length: l, ..e1 },
            None => e1,
        };
        let e3 = match b.index {
            Some(ix) => ElementModel {
                index: match ix {
                    Some(x) => x as i32,
                    None => -1i32,
                },
                ..e2
            },
            None => e2,
        };
        let e4 = match b.jump {
            Some(j) => e3.with_jump_and_depth(j.code(), e3.modifier_depth()),
            None => e3,
        };
        match b.modifier_depth {
            Some(m) => if m >= 0x4000_0000 {
                Finish::Failed(msg_depth(m))
            } else if e4.has_valid_jump() {
                Finish::Done(e4.with_jump_and_depth(e4.jump_bits(), m))
            } else {
                Finish::Panics
            },
            None => Finish::Done(e4),
        }
    }
}

impl SourceElementBuilder {
    /// A builder with no field set.
    pub fn new() -> (r: Self)
        ensures
            r == empty_builder(),
    {
        SourceElementBuilder {
            offset: None,
            length: None,
            index: None,
            jump: None,
            modifier_depth: None,
        }
    }

    /// Builds the element, taking unset fields from `prev`; reports a panic
    /// where reading the jump of `prev` would fail.
    pub fn try_finish(self, prev: Option<SourceElement>) -> (r: Built)
        ensures
            match finish(self, model_of(prev)) {
                Finish::Done(e) => r matches Built::Element(x) && x@ == e,
                Finish::Failed(m) => r matches Built::Error(x) && x@ == m,
                Finish::Panics => r is Panicked,
            },
    {
        let no_prev = prev.is_none();
        let mut element = match prev {
            Some(e) => e,
            None => SourceElement::new_invalid(),
        };
        match self.offset {
            Some(o) => element.offset = o,
            None => if no_prev {
                return Built::Error(SyntaxError::new(owned("No previous offset")));
            },
        }
        match self.length {
            Some(l) => element.length = l,
            None => if no_prev {
                return Built::Error(SyntaxError::new(owned("No previous length")));
            },
        }
        match self.index {
            Some(ix) => element.index = match ix {
                Some(x) => #[verifier::truncate] (x as i32),
                None => -1,
            },
            None => if no_prev {
                return Built::Error(SyntaxError::new(owned("No previous index")));
            },
        }
        match self.jump {
            Some(j) => element.set_jump(j),
            None => if no_prev {
                return Built::Error(SyntaxError::new(owned("No previous jump")));
            },
        }
        if let Some(m) = self.modifier_depth {
            if m >= 0x4000_0000 {
                let mut t = owned("Modifier depth out of range: ");
                push_decimal(&mut t, m as u64);
                return Built::Error(SyntaxError::new(t));
            }
            if element.jump_and_modifier_depth >> 30 >= 3 {
                return Built::Panicked;
            }
            element.set_modifier_depth(m);
        }
        Built::Element(element)
    }

    /// Builds the element, taking unset fields from `prev`.
    pub fn finish(self, prev: Option<SourceElement>) -> (r: Result<SourceElement, SyntaxError>)
        requires
            !(finish(self, model_of(prev)) is Panics),
        ensures
            match finish(self, model_of(prev)) {
                Finish::Done(e) => r matches Ok(x) && x@ == e,
                Finish::Failed(m) => r matches Err(x) && x@ == m,
                Finish::Panics => false,
            },
    {
        match self.try_finish(prev) {
            Built::Element(e) => Ok(e),
            Built::Error(e) => Err(e),
            Built::Panicked => Err(SyntaxError::new(String::new())),
        }
    }

    /// Sets the jump, unless it is set already.
    pub fn set_jmp(&mut self, jmp: Jump, i: usize) -> (r: Option<SyntaxError>)
        ensures
            old(self).jump is Some ==> (r matches Some(e) && e@ == "Jump already set: "@ + dec(
                i as nat,
            ) && *final(self) == *old(self)),
            old(self).jump is None ==> r is None && *final(self) == (SourceElementBuilder { jump: Some(jmp), ..*old(self) }),
    {
        if self.jump.is_some() {
            let mut m = owned("Jump already set: ");
            push_decimal(&mut m, i as u64);
            return Some(SyntaxError::new(m));
        }
        self.jump = Some(jmp);
        None
    }

    /// Sets the offset, unless it is set already.
    pub fn set_offset(&mut self, offset: u32, i: usize) -> (r: Option<SyntaxError>)
        ensures
            old(self).offset is Some ==> (r matches Some(e) && e@ == "Offset already set: "@ + dec(
                i as nat,
            ) && *final(self) == *old(self)),
            old(self).offset is None ==> r is None && *final(self) == (SourceElementBuilder { offset: Some(offset), ..*old(self) }),
    {
        if self.offset.is_some() {
            let mut m = owned("Offset already set: ");
            push_decimal(&mut m, i as u64);
            return Some(SyntaxError::new(m));
        }
        self.offset = Some(offset);
        None
    }

    /// Sets the length, unless it is set already.
    pub fn set_length(&mut self, length: u32, i: usize) -> (r: Option<SyntaxError>)
        ensures
            old(self).length is Some ==> (r matches Some(e) && e@ == "Length already set: "@ + dec(
                i as nat,
            ) && *final(self) == *old(self)),
            old(self).length is None ==> r is None && *final(self) == (SourceElementBuilder { length: Some(length), ..*old(self) }),
    {
        if self.length.is_some() {
            let mut m = owned("Length already set: ");
            push_decimal(&mut m, i as u64);
            return Some(SyntaxError::new(m));
        }
        self.length = Some(length);
        None
    }

    /// Sets the source index, unless it is set already.
    pub fn set_index(&mut self, index: Option<u32>, i: usize) -> (r: Option<SyntaxError>)
        ensures
            old(self).index is Some ==> (r matches Some(e) && e@ == "Index already set: "@ + dec(
                i as nat,
            ) && *final(self) == *old(self)),
            old(self).index is None ==> r is None && *final(self) == (SourceElementBuilder { index: Some(index), ..*old(self) }),
    {
        if self.index.is_some() {
            let mut m = owned("Index already set: ");
            push_decimal(&mut m, i as u64);
            return Some(SyntaxError::new(m));
        }
        self.index = Some(index);
        None
    }

    /// Sets the modifier depth, unless it is set already.
    pub fn set_modifier(&mut self, modifier_depth: u32, i: usize) -> (r: Option<SyntaxError>)
        ensures
            old(self).modifier_depth is Some ==> (r matches Some(e) && e@
                == "Modifier depth already set: "@ + dec(i as nat) && *final(self) == *old(self)),
            old(self).modifier_depth is None ==> r is None && *final(self) == (SourceElementBuilder { modifier_depth: Some(modifier_depth), ..*old(self) }),
    {
        if self.modifier_depth.is_some() {
            let mut m = owned("Modifier depth already set: ");
            push_decimal(&mut m, i as u64);
            return Some(SyntaxError::new(m));
        }
        self.modifier_depth = Some(modifier_depth);
        None
    }

    fn push_field(&self, out: &mut String, v: Option<u32>)
        ensures
            final(out)@ == old(out)@ + field_text(*self, v),
    {
        if let Some(x) = v {
            if self.index == Some(None) {
                string_push(out, '-');
                string_push(out, '1');
                assert(final(out)@ =~= old(out)@ + seq!['-', '1']);
            } else {
                push_decimal(out, x as u64);
            }
        } else {
            assert(old(out)@ + Seq::<char>::empty() =~= old(out)@);
        }
    }

    fn write_modifier(&self, out: &mut String)
        ensures
            final(out)@ == old(out)@ + text_from_modifier(*self),
    {
        if self.modifier_depth.is_none() {
            assert(old(out)@ + Seq::<char>::empty() =~= old(out)@);
            return ;
        }
        string_push(out, ':');
        self.push_field(out, self.modifier_depth);
        assert(final(out)@ =~= old(out)@ + text_from_modifier(*self));
    }

    fn write_jump(&self, out: &mut String)
        ensures
            final(out)@ == old(out)@ + text_from_jump(*self),
    {
        if self.jump.is_none() && self.modifier_depth.is_none() {
            assert(old(out)@ + Seq::<char>::empty() =~= old(out)@);
            return ;
        }
        let ghost o = out@;
        string_push(out, ':');
        if let Some(j) = self.jump {
            push_str(out, j.as_str());
        }
        assert(out@ =~= o + seq![':'] + jump_text(self.jump));
        self.write_modifier(out);
        assert(out@ =~= o + text_from_jump(*self));
    }

    fn write_index(&self, out: &mut String)
        ensures
            final(out)@ == old(out)@ + text_from_index(*self),
    {
        if self.index.is_none() && self.jump.is_none() && self.modifier_depth.is_none() {
            assert(old(out)@ + Seq::<char>::empty() =~= old(out)@);
            return ;
        }
        let ghost o = out@;
        string_push(out, ':');
        match self.index {
            Some(Some(x)) => push_decimal(out, x as u64),
            Some(None) => {
                string_push(out, '-');
                string_push(out, '1');
            },
            None => {},
        }
        assert(out@ =~= o + seq![':'] + index_text(self.index));
        self.write_jump(out);
        assert(out@ =~= o + text_from_index(*self));
    }

    fn write_length(&self, out: &mut String)
        ensures
            final(out)@ == old(out)@ + text_from_length(*self),
    {
        if self.length.is_none() && self.index.is_none() && self.jump.is_none()
            && self.modifier_depth.is_none() {
            assert(old(out)@ + Seq::<char>::empty() =~= old(out)@);
            return ;
        }
        let ghost o = out@;
        string_push(out, ':');
        self.push_field(out, self.length);
        self.write_index(out);
        assert(out@ =~= o + text_from_length(*self));
    }

    /// Appends the text of the builder in source map syntax.
    pub fn write_to(&self, out: &mut String)
        ensures
            final(out)@ == old(out)@ + builder_text(*self),
    {
        if self.offset.is_none() && self.length.is_none() && self.index.is_none()
            && self.jump.is_none() && self.modifier_depth.is_none() {
            assert(old(out)@ + Seq::<char>::empty() =~= old(out)@);
            return ;
        }
        let ghost o = out@;
        self.push_field(out, self.offset);
        self.write_length(out);
        assert(out@ =~= o + builder_text(*self));
    }

    /// The text of the builder in source map syntax.
    pub fn to_string(&self) -> (r: String)
        ensures
            r@ == builder_text(*self),
    {
        let mut s = String::new();
        self.write_to(&mut s);
        assert(s@ =~= builder_text(*self));
        s
    }
}

/// Which field a number fills, advanced by each `:`.
#[derive(Clone, Copy, PartialEq, Eq, Structural)]
pub enum State {
    // s
    Offset,
    // l
    Length,
    // f
    Index,
    // j
    Jmp,
    // m
    Modifier,
}

impl State {
    /// The state after a `:`; there is none after the modifier depth.
    pub open spec fn next_state(self) -> Option<State> {
        match self {
            State::Offset => Some(State::Length),
            State::Length => Some(State::Index),
            State::Index => Some(State::Jmp),
            State::Jmp => Some(State::Modifier),
            State::Modifier => None,
        }
    }

    /// Moves to the next field, or reports an unexpected colon at `i`.
    pub fn advance(&mut self, i: usize) -> (r: Option<SyntaxError>)
        ensures
            match old(self).next_state() {
                Some(n) => r is None && *final(self) == n,
                None => r matches Some(e) && e@ == "unexpected colon at "@ + dec(i as nat)
                    && *final(self) == *old(self),
            },
    {
        match self {
            State::Offset => *self = State::Length,
            State::Length => *self = State::Index,
            State::Index => *self = State::Jmp,
            State::Jmp => *self = State::Modifier,
            State::Modifier => {
                let mut m = owned("unexpected colon at ");
                push_decimal(&mut m, i as u64);
                return Some(SyntaxError::new(m));
            },
        }
        None
    }
}


/// How reading the tokens of one element ends.
pub enum Scan {
    /// The input is exhausted.
    End(SourceElementBuilder),
    /// A `;` ends the element; reading goes on at the given position.
    Semi(SourceElementBuilder, int),
    /// An error, found before the given position.
    Fail(Seq<char>, int),
}

pub proof fn lemma_lex_progress(s: Seq<char>, p: int)
    requires
        0 <= p,
    ensures
        lex(s, p) matches Lexed::Tok(_, start, next) ==> start == p && p < next <= s.len(),
        lex(s, p) matches Lexed::Bad(_, i) ==> i == p && p < s.len(),
{
    if p < s.len() {
        if s[p] == '-' && p + 1 < s.len() && is_digit(s[p + 1]) {
            lemma_digits_end(s, p + 2);
        } else if is_digit(s[p]) {
            lemma_digits_end(s, p + 1);
        }
    }
}

/// Reads the tokens of one element from position `p` in state `st`, with the
/// fields `b` read so far.
pub open spec fn scan(s: Seq<char>, p: int, st: State, b: SourceElementBuilder) -> Scan
    decreases s.len() - p,
{
    if p < 0 {
        Scan::End(b)
    } else {
        match lex(s, p) {
            Lexed::End => Scan::End(b),
            Lexed::Bad(c, i) => Scan::Fail(msg_unexpected(c, i), i + 1),
            Lexed::Tok(t, start, next) => {
                proof {
                    lemma_lex_progress(s, p);
                }
                match t {
                    Token::Semicolon => Scan::Semi(b, next),
                    Token::Colon => match st.next_state() {
                        Some(n) => scan(s, next, n, b),
                        None => Scan::Fail("unexpected colon at "@ + dec(start as nat), next),
                    },
                    Token::In => if b.jump is Some {
                        Scan::Fail("Jump already set: "@ + dec(start as nat), next)
                    } else {
                        scan(s, next, st, SourceElementBuilder { jump: Some(Jump::In), ..b })
                    },
                    Token::Out => if b.jump is Some {
                        Scan::Fail("Jump already set: "@ + dec(start as nat), next)
                    } else {
                        scan(s, next, st, SourceElementBuilder { jump: Some(Jump::Out), ..b })
                    },
                    Token::Regular => if b.jump is Some {
                        Scan::Fail("Jump already set: "@ + dec(start as nat), next)
                    } else {
                        scan(s, next, st, SourceElementBuilder { jump: Some(Jump::Regular), ..b })
                    },
                    Token::Number(a, e) => if st == State::Jmp {
                        Scan::Fail("Expected Jump found number at "@ + dec(start as nat), next)
                    } else {
                        let text = s.subrange(a as int, e as int);
                        match number_value(text) {
                            NumberValue::Invalid => Scan::Fail(msg_invalid(text, start), next),
                            NumberValue::Negative(v) => Scan::Fail(msg_negative(v, start), next),
                            _ => {
                                let v: Option<u32> = match number_value(text) {
                                    NumberValue::Value(x) => Some(x),
                                    _ => None,
                                };
                                let d: u32 = match v {
                                    Some(x) => x,
                                    None => 0,
                                };
                                match st {
                                    State::Offset => if b.offset is Some {
                                        Scan::Fail("Offset already set: "@ + dec(start as nat), next)
                                    } else {
                                        scan(s, next, st, SourceElementBuilder { offset: Some(d), ..b })
                                    },
                                    State::Length => if b.length is Some {
                                        Scan::Fail("Length already set: "@ + dec(start as nat), next)
                                    } else {
                                        scan(s, next, st, SourceElementBuilder { length: Some(d), ..b })
                                    },
                                    State::Index => if b.index is Some {
                                        Scan::Fail("Index already set: "@ + dec(start as nat), next)
                                    } else {
                                        scan(s, next, st, SourceElementBuilder { index: Some(v), ..b })
                                    },
                                    _ => if b.modifier_depth is Some {
                                        Scan::Fail(
                                            "Modifier depth already set: "@ + dec(start as nat),
                                            next,
                                        )
                                    } else {
                                        scan(
                                            s,
                                            next,
                                            st,
                                            SourceElementBuilder { modifier_depth: Some(d), ..b },
                                        )
                                    },
                                }
                            },
                        }
                    },
                }
            },
        }
    }
}

pub proof fn lemma_scan_progress(s: Seq<char>, p: int, st: State, b: SourceElementBuilder)
    requires
        0 <= p <= s.len(),
    ensures
        scan(s, p, st, b) matches Scan::Semi(_, q) ==> p < q <= s.len(),
        scan(s, p, st, b) matches Scan::Fail(_, q) ==> p < q <= s.len(),
    decreases s.len() - p,
{
    lemma_lex_progress(s, p);
    if let Lexed::Tok(t, start, next) = lex(s, p) {
        lemma_scan_progress(s, next, State::Offset, b);
        lemma_scan_progress(s, next, State::Length, b);
        lemma_scan_progress(s, next, State::Index, b);
        lemma_scan_progress(s, next, State::Jmp, b);
        lemma_scan_progress(s, next, State::Modifier, b);
        lemma_scan_progress(s, next, st, SourceElementBuilder { jump: Some(Jump::In), ..b });
        lemma_scan_progress(s, next, st, SourceElementBuilder { jump: Some(Jump::Out), ..b });
        lemma_scan_progress(s, next, st, SourceElementBuilder { jump: Some(Jump::Regular), ..b });
        if let Token::Number(a, e) = t {
            let text = s.subrange(a as int, e as int);
            let v: Option<u32> = match number_value(text) {
                NumberValue::Value(x) => Some(x),
                _ => None,
            };
            let d: u32 = match v {
                Some(x) => x,
                None => 0,
            };
            lemma_scan_progress(s, next, st, SourceElementBuilder { offset: Some(d), ..b });
            lemma_scan_progress(s, next, st, SourceElementBuilder { length: Some(d), ..b });
            lemma_scan_progress(s, next, st, SourceElementBuilder { index: Some(v), ..b });
            lemma_scan_progress(s, next, st, SourceElementBuilder { modifier_depth: Some(d), ..b });
        }
    }
}

/// The result of reading one element.
pub enum Step {
    /// The input was exhausted before: no more elements.
    Stop,
    /// An element, with the position, end flag and previous element that follow.
    Emit(ElementModel, int, bool),
    /// An error, with the position, end flag and previous element that follow.
    Fail(Seq<char>, int, bool, Option<ElementModel>),
    /// Reading the jump of the previous element fails.
    Panics,
}

/// The step that builds the element from `b`.
pub open spec fn finish_step(b: SourceElementBuilder, prev: Option<ElementModel>, q: int, d: bool) -> Step {
    match finish(b, prev) {
        Finish::Done(e) => Step::Emit(e, q, d),
        Finish::Failed(m) => Step::Fail(m, q, d, None),
        Finish::Panics => Step::Panics,
    }
}

/// Reads one element at position `p`; `done` tells whether the end of the input
/// has been reported, `prev` is the previous element.
#[verifier::opaque]
pub open spec fn step(s: Seq<char>, p: int, done: bool, prev: Option<ElementModel>) -> Step {
    match scan(s, p, State::Offset, empty_builder()) {
        Scan::Fail(m, q) => Step::Fail(m, q, done, prev),
        Scan::End(b) => if done {
            Step::Stop
        } else {
            finish_step(b, prev, s.len() as int, true)
        },
        Scan::Semi(b, q) => finish_step(b, prev, q, done),
    }
}

/// The source map text of the fields read by one step, preceded by `;` when an
/// element came before.
#[verifier::opaque]
pub open spec fn step_text(s: Seq<char>, p: int, done: bool, prev: Option<ElementModel>) -> Seq<char> {
    let sep = if prev is Some {
        seq![';']
    } else {
        Seq::empty()
    };
    match scan(s, p, State::Offset, empty_builder()) {
        Scan::Fail(_, _) => Seq::empty(),
        Scan::End(b) => if done {
            Seq::empty()
        } else {
            sep + builder_text(b)
        },
        Scan::Semi(b, _) => sep + builder_text(b),
    }
}

/// The result of parsing a whole source map.
pub enum Outcome {
    Elements(Seq<ElementModel>),
    Error(Seq<char>),
    /// Reading the jump of an element fails on the way.
    Panics,
}

/// `e` followed by the elements of `o`.
pub open spec fn prepend(es: Seq<ElementModel>, o: Outcome) -> Outcome {
    match o {
        Outcome::Elements(rest) => Outcome::Elements(es + rest),
        other => other,
    }
}

/// Reads all elements from position `p` on, up to the first error; the second
/// component is the source map text of the fields read.
#[verifier::opaque]
pub open spec fn run(s: Seq<char>, p: int, done: bool, prev: Option<ElementModel>) -> (Outcome, Seq<char>)
    decreases (s.len() - p) * 2 + (if done {
        0int
    } else {
        1int
    }),
{
    if p < 0 || p > s.len() {
        (Outcome::Elements(Seq::empty()), Seq::empty())
    } else {
        let t = step_text(s, p, done, prev);
        match step(s, p, done, prev) {
            Step::Stop => (Outcome::Elements(Seq::empty()), t),
            Step::Fail(m, _, _, _) => (Outcome::Error(m), t),
            Step::Panics => (Outcome::Panics, t),
            Step::Emit(e, q, d) => {
                proof {
                    reveal(step);
                    lemma_scan_progress(s, p, State::Offset, empty_builder());
                }
                let rest = run(s, q, d, Some(e));
                (prepend(seq![e], rest.0), t + rest.1)
            },
        }
    }
}

/// One step of [`run`]: the element read, then the rest.
pub proof fn lemma_run_step(s: Seq<char>, p: int, d: bool, l: Option<ElementModel>)
    requires
        0 <= p <= s.len(),
        d ==> p == s.len(),
    ensures
        step(s, p, d, l) matches Step::Emit(_, q, dd) ==> 0 <= q <= s.len() && (dd ==> q == s.len())
            && ((s.len() - q) * 2 + (if dd { 0int } else { 1int })) < ((s.len() - p) * 2 + (if d { 0int } else { 1int })),
        run(s, p, d, l) == match step(s, p, d, l) {
            Step::Stop => (Outcome::Elements(Seq::empty()), step_text(s, p, d, l)),
            Step::Fail(m, _, _, _) => (Outcome::Error(m), step_text(s, p, d, l)),
            Step::Panics => (Outcome::Panics, step_text(s, p, d, l)),
            Step::Emit(e, q, dd) => (
                prepend(seq![e], run(s, q, dd, Some(e)).0),
                step_text(s, p, d, l) + run(s, q, dd, Some(e)).1,
            ),
        },
{
    reveal(run);
    reveal(step);
    lemma_scan_progress(s, p, State::Offset, empty_builder());
}

/// The elements of a source map, or the first error.
pub open spec fn spec_parse(s: Seq<char>) -> Outcome {
    run(s, 0, false, None).0
}


/// A number token spans at least one character and has the shape of a number.
pub proof fn lemma_lex_number(s: Seq<char>, p: int)
    requires
        0 <= p,
        s.len() <= usize::MAX,
    ensures
        lex(s, p) matches Lexed::Tok(Token::Number(a, e), start, next) ==> a as int == start && e
            as int == next && a < e <= s.len() && is_number_token(s.subrange(a as int, e as int)),
{
    if p < s.len() {
        if s[p] == '-' && p + 1 < s.len() && is_digit(s[p + 1]) {
            lemma_digits_end(s, p + 2);
            let e = digits_end(s, p + 2);
            let t = s.subrange(p, e);
            assert forall|k: int| 0 <= k < t.skip(1).len() implies is_digit(#[trigger] t.skip(1)[k]) by {
                assert(t.skip(1)[k] == s[p + 1 + k]);
            }
        } else if is_digit(s[p]) {
            lemma_digits_end(s, p + 1);
            let e = digits_end(s, p + 1);
            let t = s.subrange(p, e);
            assert forall|k: int| 0 <= k < t.len() implies is_digit(#[trigger] t[k]) by {
                assert(t[k] == s[p + k]);
            }
        }
    }
}

/// What one step of the parser gives, as executed.
pub enum Next {
    /// The input was exhausted before.
    Stopped,
    Element(SourceElement),
    Failed(SyntaxError),
    /// Reading the jump of the previous element fails.
    Panicked,
}

/// The result of parsing all remaining elements, as executed.
pub enum Collected {
    Elements(Vec<SourceElement>),
    Failed(SyntaxError),
    /// Reading the jump of an element fails on the way.
    Panicked,
}

/// The models of a sequence of elements.
pub open spec fn models(v: Seq<SourceElement>) -> Seq<ElementModel> {
    v.map_values(|e: SourceElement| e@)
}

/// A lazy parser of source map elements.
pub struct Parser {
    stream: TokenStream,
    last_element: Option<SourceElement>,
    done: bool,
    output: Option<String>,
}

impl Parser {
    /// The characters of the input.
    pub closed spec fn input(&self) -> Seq<char> {
        self.stream.chars@
    }

    /// The position of the next character to read.
    pub closed spec fn position(&self) -> int {
        self.stream.pos as int
    }

    /// Whether the end of the input has been reported.
    pub closed spec fn is_done(&self) -> bool {
        self.done
    }

    /// The last element produced.
    pub closed spec fn last(&self) -> Option<ElementModel> {
        model_of(self.last_element)
    }

    /// The source map text of the fields read so far, when recording.
    pub closed spec fn recorded(&self) -> Option<Seq<char>> {
        match self.output {
            Some(o) => Some(o@),
            None => None,
        }
    }

    /// The parser's position lies within the input, at its end once the end was reported.
    pub closed spec fn wf(&self) -> bool {
        &&& self.stream.pos <= self.stream.chars@.len()
        &&& self.done ==> self.stream.pos == self.stream.chars@.len()
        &&& readable(model_of(self.last_element))
    }

    /// The elements and recorded text still to come.
    pub open spec fn remaining(&self) -> (Outcome, Seq<char>) {
        run(self.input(), self.position(), self.is_done(), self.last())
    }

    /// Creates a parser at the start of `input`.
    pub fn new(input: &str) -> (r: Self)
        ensures
            r.wf(),
            r.input() == input@,
            r.position() == 0,
            !r.is_done(),
            r.last() is None,
            r.recorded() is None,
    {
        Self { stream: TokenStream::new(input), last_element: None, done: false, output: None }
    }

    /// Starts recording the source map text of the fields read, element by element.
    pub fn record_output(&mut self)
        ensures
            final(self).wf() == old(self).wf(),
            final(self).input() == old(self).input(),
            final(self).position() == old(self).position(),
            final(self).is_done() == old(self).is_done(),
            final(self).last() == old(self).last(),
            final(self).recorded() == Some(Seq::<char>::empty()),
    {
        self.output = Some(String::new());
    }

    /// The text recorded so far, if recording.
    pub fn output(&self) -> (r: Option<String>)
        ensures
            match r {
                Some(o) => self.recorded() == Some(o@),
                None => self.recorded() is None,
            },
    {
        match &self.output {
            Some(o) => Some(o.clone()),
            None => None,
        }
    }

    /// Reads one element; also reports where reading the previous element's jump fails.
    pub fn try_next(&mut self) -> (r: Next)
        requires
            old(self).wf(),
        ensures
            final(self).wf(),
            final(self).input() == old(self).input(),
            final(self).recorded() == match old(self).recorded() {
                Some(o) => Some(o + step_text(old(self).input(), old(self).position(), old(self).is_done(), old(self).last())),
                None => None,
            },
            match step(old(self).input(), old(self).position(), old(self).is_done(), old(self).last()) {
                Step::Stop => r is Stopped && final(self).position() == old(self).position()
                    && final(self).is_done() == old(self).is_done() && final(self).last() == old(self).last(),
                Step::Emit(e, q, d) => (r matches Next::Element(x) && x@ == e) && final(self).position() == q
                    && final(self).is_done() == d && final(self).last() == Some(e),
                Step::Fail(m, q, d, l) => (r matches Next::Failed(x) && x@ == m) && final(self).position() == q
                    && final(self).is_done() == d && final(self).last() == l,
                Step::Panics => r is Panicked,
            },
    {
        proof {
            lemma_step_readable(old(self).input(), old(self).position(), old(self).is_done(), old(self).last());
        }
        reveal(step);
        reveal(step_text);
        let ghost s = self.stream.chars@;
        let ghost p0 = self.stream.pos as int;
        let n = self.stream.chars.len();
        let mut state = State::Offset;
        let mut builder = SourceElementBuilder::new();
        let mut at_end = false;
        let mut failure: Option<SyntaxError> = None;
        proof {
            lemma_scan_progress(s, p0, State::Offset, empty_builder());
        }
        loop
            invariant_except_break
                !at_end,
                failure is None,
                n == s.len(),
                self.stream.chars@ == s,
                p0 <= self.stream.pos <= s.len(),
                scan(s, self.stream.pos as int, state, builder) == scan(s, p0, State::Offset, empty_builder()),
                self.last_element == old(self).last_element,
                self.done == old(self).done,
                self.output == old(self).output,
                old(self).wf(),
                old(self).stream.chars@ == s,
                old(self).stream.pos == p0,
            ensures
                self.stream.chars@ == s,
                self.last_element == old(self).last_element,
                self.output == old(self).output,
                p0 <= self.stream.pos <= s.len(),
                failure matches Some(f) ==> scan(s, p0, State::Offset, empty_builder()) == Scan::Fail(f@, self.stream.pos as int)
                    && self.done == old(self).done,
                failure is None && at_end ==> scan(s, p0, State::Offset, empty_builder()) == Scan::End(builder)
                    && self.stream.pos == s.len() && self.done && !old(self).done,
                failure is None && !at_end ==> scan(s, p0, State::Offset, empty_builder()) == Scan::Semi(builder, self.stream.pos as int)
                    && self.done == old(self).done,
            decreases s.len() - self.stream.pos,
        {
            let ghost pb = self.stream.pos as int;
            proof {
                lemma_lex_progress(s, pb);
                lemma_lex_number(s, pb);
            }
            match self.stream.next() {
                Some(Ok((token, pos))) => match token {
                    Token::Semicolon => break,
                    Token::Number(a, e) => {
                        if state == State::Jmp {
                            let mut m = owned("Expected Jump found number at ");
                            push_decimal(&mut m, pos as u64);
                            failure = Some(SyntaxError::new(m));
                            break;
                        }
                        let v = match parse_number(&self.stream.chars, a, e, pos) {
                            Ok(v) => v,
                            Err(err) => {
                                failure = Some(err);
                                break;
                            },
                        };
                        let d: u32 = match v {
                            Some(x) => x,
                            None => 0,
                        };
                        let r = match state {
                            State::Offset => builder.set_offset(d, pos),
                            State::Length => builder.set_length(d, pos),
                            State::Index => builder.set_index(v, pos),
                            _ => builder.set_modifier(d, pos),
                        };
                        if let Some(err) = r {
                            failure = Some(err);
                            break;
                        }
                    },
                    Token::Colon => {
                        if let Some(err) = state.advance(pos) {
                            failure = Some(err);
                            break;
                        }
                    },
                    Token::In => {
                        if let Some(err) = builder.set_jmp(Jump::In, pos) {
                            failure = Some(err);
                            break;
                        }
                    },
                    Token::Out => {
                        if let Some(err) = builder.set_jmp(Jump::Out, pos) {
                            failure = Some(err);
                            break;
                        }
                    },
                    Token::Regular => {
                        if let Some(err) = builder.set_jmp(Jump::Regular, pos) {
                            failure = Some(err);
                            break;
                        }
                    },
                },
                Some(Err(err)) => {
                    failure = Some(err);
                    break;
                },
                None => {
                    if self.done {
                        reveal(step);
                        reveal(step_text);
                        assert(p0 == s.len());
                        assert(lex(s, p0) is End);
                        assert(scan(s, p0, State::Offset, empty_builder()) is End);
                        assert(step_text(s, p0, old(self).done, old(self).last()) == Seq::<char>::empty());
                        assert(step(s, p0, old(self).done, old(self).last()) is Stop);
                        assert(old(self).recorded() matches Some(o) ==> o + step_text(s, p0, old(self).done, old(self).last()) =~= o);
                        return Next::Stopped;
                    }
                    self.done = true;
                    at_end = true;
                    break;
                },
            }
        }
        if let Some(err) = failure {
            assert(old(self).recorded() matches Some(o) ==> o + step_text(s, p0, old(self).done, old(self).last()) =~= o);
            return Next::Failed(err);
        }
        let prev = self.last_element;
        if let Some(mut out) = self.output.take() {
            let ghost o0 = out@;
            if prev.is_some() {
                string_push(&mut out, ';');
            }
            builder.write_to(&mut out);
            assert(out@ =~= o0 + step_text(s, p0, old(self).done, model_of(prev)));
            self.output = Some(out);
        }
        self.last_element = None;
        match builder.try_finish(prev) {
            Built::Element(e) => {
                self.last_element = Some(e);
                Next::Element(e)
            },
            Built::Error(err) => Next::Failed(err),
            Built::Panicked => Next::Panicked,
        }
    }

    /// Reads all remaining elements up to the first error; also reports where
    /// reading an element's jump fails.
    pub fn try_collect(&mut self) -> (r: Collected)
        requires
            old(self).wf(),
        ensures
            final(self).input() == old(self).input(),
            final(self).recorded() == match old(self).recorded() {
                Some(o) => Some(o + old(self).remaining().1),
                None => None,
            },
            match old(self).remaining().0 {
                Outcome::Elements(es) => r matches Collected::Elements(v) && models(v@) == es,
                Outcome::Error(m) => r matches Collected::Failed(x) && x@ == m,
                Outcome::Panics => r is Panicked,
            },
    {
        let ghost s = self.input();
        let ghost total = old(self).remaining();
        let ghost rec0 = old(self).recorded();
        let mut v: Vec<SourceElement> = Vec::new();
        let ghost mut text: Seq<char> = Seq::empty();
        loop
            invariant
                self.wf(),
                self.input() == s,
                s == old(self).input(),
                total == old(self).remaining(),
                prepend(models(v@), self.remaining().0) == total.0,
                text + self.remaining().1 == total.1,
                self.recorded() == match rec0 {
                    Some(o) => Some(o + text),
                    None => None,
                },
                rec0 == old(self).recorded(),
            decreases (s.len() - self.position()) * 2 + (if self.is_done() {
                0int
            } else {
                1int
            }),
        {
            let ghost p = self.position();
            let ghost d = self.is_done();
            let ghost l = self.last();
            proof {
                lemma_run_step(s, p, d, l);
            }
            let ghost rem = self.remaining();
            match self.try_next() {
                Next::Stopped => {
                    assert(text + step_text(s, p, d, l) == total.1);
                    return Collected::Elements(v);
                },
                Next::Element(e) => {
                    proof {
                        let rest = run(s, self.position(), self.is_done(), self.last());
                        assert(rem == (prepend(seq![e@], rest.0), step_text(s, p, d, l) + rest.1));
                        assert(models(v@.push(e)) =~= models(v@) + seq![e@]);
                        match rest.0 {
                            Outcome::Elements(es) => {
                                assert(models(v@) + (seq![e@] + es) =~= (models(v@) + seq![e@]) + es);
                            },
                            _ => {},
                        }
                        assert((text + step_text(s, p, d, l)) + rest.1 =~= text + (step_text(s, p, d, l) + rest.1));
                        text = text + step_text(s, p, d, l);
                    }
                    v.push(e);
                },
                Next::Failed(err) => {
                    return Collected::Failed(err);
                },
                Next::Panicked => {
                    return Collected::Panicked;
                },
            }
        }
    }

    /// Reads all remaining elements up to the first error.
    pub fn collect(&mut self) -> (r: Result<Vec<SourceElement>, SyntaxError>)
        requires
            old(self).wf(),
        ensures
            final(self).input() == old(self).input(),
            final(self).recorded() == match old(self).recorded() {
                Some(o) => Some(o + old(self).remaining().1),
                None => None,
            },
            match old(self).remaining().0 {
                Outcome::Elements(es) => r matches Ok(v) && models(v@) == es,
                Outcome::Error(m) => r matches Err(x) && x@ == m,
                Outcome::Panics => false,
            },
    {
        proof {
            lemma_run_readable(self.input(), self.position(), self.is_done(), self.last());
        }
        match self.try_collect() {
            Collected::Elements(v) => Ok(v),
            Collected::Failed(e) => Err(e),
            Collected::Panicked => Ok(Vec::new()),
        }
    }

    /// Reads the next element, `None` once the input is exhausted.
    pub fn next(&mut self) -> (r: Option<Result<SourceElement, SyntaxError>>)
        requires
            old(self).wf(),
        ensures
            final(self).wf(),
            final(self).input() == old(self).input(),
            final(self).recorded() == match old(self).recorded() {
                Some(o) => Some(o + step_text(old(self).input(), old(self).position(), old(self).is_done(), old(self).last())),
                None => None,
            },
            match step(old(self).input(), old(self).position(), old(self).is_done(), old(self).last()) {
                Step::Stop => r is None && final(self).position() == old(self).position()
                    && final(self).is_done() == old(self).is_done() && final(self).last() == old(self).last(),
                Step::Emit(e, q, d) => (r matches Some(Ok(x)) && x@ == e) && final(self).position() == q
                    && final(self).is_done() == d && final(self).last() == Some(e),
                Step::Fail(m, q, d, l) => (r matches Some(Err(x)) && x@ == m) && final(self).position() == q
                    && final(self).is_done() == d && final(self).last() == l,
                Step::Panics => false,
            },
    {
        proof {
            lemma_step_readable(self.input(), self.position(), self.is_done(), self.last());
        }
        match self.try_next() {
            Next::Stopped => None,
            Next::Element(e) => Some(Ok(e)),
            Next::Failed(e) => Some(Err(e)),
            Next::Panicked => None,
        }
    }
}


/// An element whose jump can be read, or none.
pub open spec fn readable(prev: Option<ElementModel>) -> bool {
    prev matches Some(e) ==> e.has_valid_jump()
}

/// Building on a readable previous element never fails to read its jump, and
/// gives an element whose jump can be read.
pub proof fn lemma_finish_readable(b: SourceElementBuilder, prev: Option<ElementModel>)
    requires
        readable(prev),
    ensures
        !(finish(b, prev) is Panics),
        finish(b, prev) matches Finish::Done(e) ==> e.has_valid_jump(),
{
    let e0 = match prev {
        Some(e) => e,
        None => invalid_model(),
    };
    assert(0u32 >> 30u32 == 0) by (bit_vector);
    lemma_bits(e0.jump_and_modifier_depth);
    match b.jump {
        Some(j) => {
            lemma_pack_roundtrip(j.code(), e0.modifier_depth());
        },
        None => {},
    }
    match b.modifier_depth {
        Some(m) => {
            if m < 0x4000_0000 {
                match b.jump {
                    Some(j) => {
                        lemma_pack_roundtrip(j.code(), m);
                    },
                    None => {
                        lemma_pack_roundtrip(e0.jump_bits(), m);
                    },
                }
            }
        },
        None => {},
    }
}

/// One step from a readable previous element never fails to read a jump, and
/// leaves a readable element behind.
pub proof fn lemma_step_readable(s: Seq<char>, p: int, d: bool, prev: Option<ElementModel>)
    requires
        readable(prev),
    ensures
        !(step(s, p, d, prev) is Panics),
        step(s, p, d, prev) matches Step::Emit(e, _, _) ==> e.has_valid_jump(),
{
    reveal(step);
    match scan(s, p, State::Offset, empty_builder()) {
        Scan::Fail(_, _) => {},
        Scan::End(b) => lemma_finish_readable(b, prev),
        Scan::Semi(b, _) => lemma_finish_readable(b, prev),
    }
}

/// Reading on from a readable previous element never fails to read a jump.
pub proof fn lemma_run_readable(s: Seq<char>, p: int, d: bool, prev: Option<ElementModel>)
    requires
        readable(prev),
        0 <= p <= s.len(),
        d ==> p == s.len(),
    ensures
        !(run(s, p, d, prev).0 is Panics),
    decreases (s.len() - p) * 2 + (if d {
        0int
    } else {
        1int
    }),
{
    lemma_run_step(s, p, d, prev);
    lemma_step_readable(s, p, d, prev);
    match step(s, p, d, prev) {
        Step::Emit(e, q, dd) => {
            lemma_run_readable(s, q, dd, Some(e));
        },
        _ => {},
    }
}

/// Parsing a source map never fails to read the jump of an element.
pub proof fn lemma_parse_readable(s: Seq<char>)
    ensures
        !(spec_parse(s) is Panics),
{
    lemma_run_readable(s, 0, false, None);
}

/// Parses a source map.
pub fn parse(input: &str) -> (r: Result<SourceMap, SyntaxError>)
    ensures
        match spec_parse(input@) {
            Outcome::Elements(es) => r matches Ok(v) && models(v@) == es,
            Outcome::Error(m) => r matches Err(x) && x@ == m,
            Outcome::Panics => false,
        },
{
    let mut parser = Parser::new(input);
    parser.collect()
}

/// The number of `;` in `s` from position `p` on.
pub open spec fn semicolons_from(s: Seq<char>, p: int) -> nat
    decreases s.len() - p,
{
    if p < 0 || p >= s.len() {
        0
    } else {
        (if s[p] == ';' { 1nat } else { 0nat }) + semicolons_from(s, p + 1)
    }
}

/// The number of `;` in `s`.
pub open spec fn semicolons(s: Seq<char>) -> nat {
    semicolons_from(s, 0)
}

/// Characters without a `;` between `p` and `q` leave the count unchanged.
proof fn lemma_semicolons_skip(s: Seq<char>, p: int, q: int)
    requires
        0 <= p <= q <= s.len(),
        forall|k: int| p <= k < q ==> #[trigger] s[k] != ';',
    ensures
        semicolons_from(s, p) == semicolons_from(s, q),
    decreases q - p,
{
    if p < q {
        lemma_semicolons_skip(s, p + 1, q);
    }
}

/// Reading the fields of one element passes no `;` but the one that ends it.
proof fn lemma_scan_semicolons(s: Seq<char>, p: int, st: State, b: SourceElementBuilder)
    requires
        0 <= p <= s.len(),
        s.len() <= usize::MAX,
    ensures
        scan(s, p, st, b) matches Scan::Semi(_, q) ==> semicolons_from(s, p) == semicolons_from(s, q) + 1,
        scan(s, p, st, b) is End ==> semicolons_from(s, p) == 0,
    decreases s.len() - p,
{
    lemma_lex_advances(s, p);
    match lex(s, p) {
        Lexed::Tok(t, start, next) => {
            if t is Semicolon {
                assert(s[p] == ';');
                assert(next == p + 1);
            } else {
                assert forall|k: int| p <= k < next implies #[trigger] s[k] != ';' by {
                    if s[p] == '-' && p + 1 < s.len() && is_digit(s[p + 1]) {
                        lemma_digits_end(s, p + 2);
                        if k >= p + 2 {
                            assert(is_digit(s[k]));
                        }
                    } else if is_digit(s[p]) {
                        lemma_digits_end(s, p + 1);
                        if k >= p + 1 {
                            assert(is_digit(s[k]));
                        }
                    }
                }
                lemma_semicolons_skip(s, p, next);
                match t {
                    Token::Colon => match st.next_state() {
                        Some(n) => lemma_scan_semicolons(s, next, n, b),
                        None => {},
                    },
                    Token::In => lemma_scan_semicolons(s, next, st, SourceElementBuilder { jump: Some(Jump::In), ..b }),
                    Token::Out => lemma_scan_semicolons(s, next, st, SourceElementBuilder { jump: Some(Jump::Out), ..b }),
                    Token::Regular => lemma_scan_semicolons(s, next, st, SourceElementBuilder { jump: Some(Jump::Regular), ..b }),
                    Token::Number(a, e) => {
                        let text = s.subrange(a as int, e as int);
                        let v: Option<u32> = match number_value(text) {
                            NumberValue::Value(x) => Some(x),
                            _ => None,
                        };
                        let d: u32 = match v {
                            Some(x) => x,
                            None => 0,
                        };
                        lemma_scan_semicolons(s, next, st, SourceElementBuilder { offset: Some(d), ..b });
                        lemma_scan_semicolons(s, next, st, SourceElementBuilder { length: Some(d), ..b });
                        lemma_scan_semicolons(s, next, st, SourceElementBuilder { index: Some(v), ..b });
                        lemma_scan_semicolons(s, next, st, SourceElementBuilder { modifier_depth: Some(d), ..b });
                    },
                    _ => {},
                }
            }
        },
        _ => {},
    }
}

/// Reading from `p` on gives one element more than there are `;` left, and
/// none once the end was reported.
proof fn lemma_run_count(s: Seq<char>, p: int, d: bool, prev: Option<ElementModel>)
    requires
        0 <= p <= s.len(),
        d ==> p == s.len(),
        s.len() <= usize::MAX,
    ensures
        run(s, p, d, prev).0 matches Outcome::Elements(es) ==> es.len() == (if d { 0 } else { semicolons_from(s, p) + 1 }),
    decreases (s.len() - p) * 2 + (if d {
        0int
    } else {
        1int
    }),
{
    lemma_run_step(s, p, d, prev);
    reveal(step);
    lemma_scan_semicolons(s, p, State::Offset, empty_builder());
    match step(s, p, d, prev) {
        Step::Emit(e, q, dd) => {
            lemma_run_count(s, q, dd, Some(e));
        },
        _ => {},
    }
}

/// A source map that parses has one element per `;`-separated segment: one
/// more than it has `;`.
pub proof fn lemma_parse_counts_segments(s: Seq<char>)
    requires
        s.len() <= usize::MAX,
    ensures
        spec_parse(s) matches Outcome::Elements(es) ==> es.len() == semicolons(s) + 1,
{
    lemma_run_count(s, 0, false, None);
}

/// An empty segment (a `;` right where an element starts, or the end of the
/// input before the end was reported) repeats the previous element.
pub proof fn lemma_empty_segment_repeats(s: Seq<char>, p: int, d: bool, e: ElementModel)
    requires
        0 <= p <= s.len(),
        (p < s.len() && s[p] == ';') || (p == s.len() && !d),
    ensures
        step(s, p, d, Some(e)) matches Step::Emit(x, _, _) && x == e,
{
    reveal(step);
    assert(finish(empty_builder(), Some(e)) == Finish::Done(e));
}

/// A parser made for `s` reads the elements of `s` as `parse` does.
pub proof fn lemma_parser_reads_as_parse(p: Parser, s: Seq<char>)
    requires
        p.input() == s,
        p.position() == 0,
        !p.is_done(),
        p.last() is None,
    ensures
        p.remaining().0 == spec_parse(s),
{
}

/// Once the end was reported, the parser reads nothing more.
pub proof fn lemma_parser_stops_at_end(s: Seq<char>, l: Option<ElementModel>)
    ensures
        step(s, s.len() as int, true, l) is Stop,
{
    reveal(step);
}

/// The position of the first `;` at `p` or after, or the end.
pub open spec fn next_semicolon(s: Seq<char>, p: int) -> int
    decreases s.len() - p,
{
    if 0 <= p < s.len() && s[p] != ';' {
        next_semicolon(s, p + 1)
    } else {
        p
    }
}

/// Where segment `j` (counted from 0) of the `;`-separated segments of `s`
/// that begin at `p` starts.
pub open spec fn segment_start(s: Seq<char>, p: int, j: nat) -> int
    decreases j,
{
    if j == 0 {
        p
    } else {
        next_semicolon(s, segment_start(s, p, (j - 1) as nat)) + 1
    }
}

/// Whether the segment that starts at `a` holds no characters.
pub open spec fn empty_segment(s: Seq<char>, a: int) -> bool {
    (0 <= a < s.len() && s[a] == ';') || a == s.len()
}

proof fn lemma_next_semicolon_skip(s: Seq<char>, p: int, q: int)
    requires
        0 <= p <= q <= s.len(),
        forall|k: int| p <= k < q ==> #[trigger] s[k] != ';',
    ensures
        next_semicolon(s, p) == next_semicolon(s, q),
    decreases q - p,
{
    if p < q {
        lemma_next_semicolon_skip(s, p + 1, q);
    }
}

/// Reading one element ends right after the first `;` from where it starts,
/// or at the end where no `;` is left.
proof fn lemma_scan_segment(s: Seq<char>, p: int, st: State, b: SourceElementBuilder)
    requires
        0 <= p <= s.len(),
        s.len() <= usize::MAX,
    ensures
        scan(s, p, st, b) matches Scan::Semi(_, q) ==> q == next_semicolon(s, p) + 1,
        scan(s, p, st, b) is End ==> next_semicolon(s, p) == s.len(),
    decreases s.len() - p,
{
    lemma_lex_advances(s, p);
    match lex(s, p) {
        Lexed::Tok(t, start, next) => {
            if !(t is Semicolon) {
                assert forall|k: int| p <= k < next implies #[trigger] s[k] != ';' by {
                    if s[p] == '-' && p + 1 < s.len() && is_digit(s[p + 1]) {
                        lemma_digits_end(s, p + 2);
                        if k >= p + 2 {
                            assert(is_digit(s[k]));
                        }
                    } else if is_digit(s[p]) {
                        lemma_digits_end(s, p + 1);
                        if k >= p + 1 {
                            assert(is_digit(s[k]));
                        }
                    }
                }
                lemma_next_semicolon_skip(s, p, next);
                match t {
                    Token::Colon => match st.next_state() {
                        Some(n) => lemma_scan_segment(s, next, n, b),
                        None => {},
                    },
                    Token::In => lemma_scan_segment(s, next, st, SourceElementBuilder { jump: Some(Jump::In), ..b }),
                    Token::Out => lemma_scan_segment(s, next, st, SourceElementBuilder { jump: Some(Jump::Out), ..b }),
                    Token::Regular => lemma_scan_segment(s, next, st, SourceElementBuilder { jump: Some(Jump::Regular), ..b }),
                    Token::Number(a, e) => {
                        let text = s.subrange(a as int, e as int);
                        let v: Option<u32> = match number_value(text) {
                            NumberValue::Value(x) => Some(x),
                            _ => None,
                        };
                        let d: u32 = match v {
                            Some(x) => x,
                            None => 0,
                        };
                        lemma_scan_segment(s, next, st, SourceElementBuilder { offset: Some(d), ..b });
                        lemma_scan_segment(s, next, st, SourceElementBuilder { length: Some(d), ..b });
                        lemma_scan_segment(s, next, st, SourceElementBuilder { index: Some(v), ..b });
                        lemma_scan_segment(s, next, st, SourceElementBuilder { modifier_depth: Some(d), ..b });
                    },
                    _ => {},
                }
            }
        },
        _ => {},
    }
}

/// Reading from `p` on, element `j` repeats the one before it (the previous
/// element for the first) where its segment is empty.
proof fn lemma_run_repeats(s: Seq<char>, p: int, d: bool, prev: Option<ElementModel>, j: nat)
    requires
        0 <= p <= s.len(),
        d ==> p == s.len(),
        s.len() <= usize::MAX,
        run(s, p, d, prev).0 matches Outcome::Elements(es) && j < es.len(),
        empty_segment(s, segment_start(s, p, j)),
        j == 0 ==> prev is Some,
    ensures
        run(s, p, d, prev).0 matches Outcome::Elements(es) && es[j as int] == (if j == 0 { prev->0 } else { es[j - 1] }),
    decreases j,
{
    lemma_run_step(s, p, d, prev);
    reveal(step);
    lemma_scan_segment(s, p, State::Offset, empty_builder());
    match step(s, p, d, prev) {
        Step::Emit(e, q, dd) => {
            if j == 0 {
                lemma_empty_segment_repeats(s, p, d, prev->0);
            } else {
                match scan(s, p, State::Offset, empty_builder()) {
                    Scan::Semi(_, _) => {
                        assert(segment_start(s, q, (j - 1) as nat) == segment_start(s, p, j)) by {
                            lemma_segment_shift(s, p, q, (j - 1) as nat);
                        }
                        lemma_run_repeats(s, q, dd, Some(e), (j - 1) as nat);
                    },
                    _ => {
                        lemma_run_step(s, q, dd, Some(e));
                        lemma_parser_stops_at_end(s, Some(e));
                    },
                }
            }
        },
        _ => {},
    }
}

proof fn lemma_segment_shift(s: Seq<char>, p: int, q: int, j: nat)
    requires
        q == next_semicolon(s, p) + 1,
    ensures
        segment_start(s, q, j) == segment_start(s, p, j + 1),
    decreases j,
{
    if j > 0 {
        lemma_segment_shift(s, p, q, (j - 1) as nat);
        assert(segment_start(s, q, j) == next_semicolon(s, segment_start(s, q, (j - 1) as nat)) + 1);
        assert(segment_start(s, p, j + 1) == next_semicolon(s, segment_start(s, p, j)) + 1);
    } else {
        assert(segment_start(s, p, 0) == p);
        assert(segment_start(s, p, 1) == next_semicolon(s, segment_start(s, p, 0)) + 1);
    }
}

/// Of the elements of a source map, each but the first whose segment is empty
/// repeats the element before it.
pub proof fn lemma_parse_empty_segments_repeat(s: Seq<char>, j: nat)
    requires
        s.len() <= usize::MAX,
        spec_parse(s) matches Outcome::Elements(es) && 0 < j < es.len(),
        empty_segment(s, segment_start(s, 0, j)),
    ensures
        spec_parse(s) matches Outcome::Elements(es) && es[j as int] == es[j - 1],
{
    lemma_run_repeats(s, 0, false, None, j);
}

/// Following the steps of reading from a state, `n` times.
pub open spec fn advance(s: Seq<char>, p: int, d: bool, l: Option<ElementModel>, n: nat) -> (int, bool, Option<ElementModel>)
    decreases n,
{
    if n == 0 {
        (p, d, l)
    } else {
        match step(s, p, d, l) {
            Step::Emit(e, q, dd) => advance(s, q, dd, Some(e), (n - 1) as nat),
            _ => (p, d, l),
        }
    }
}

/// Where reading gives elements, the state after as many steps as there are
/// elements reads nothing more: every further step stops and changes nothing.
pub proof fn lemma_run_exhausted(s: Seq<char>, p: int, d: bool, l: Option<ElementModel>)
    requires
        0 <= p <= s.len(),
        d ==> p == s.len(),
        run(s, p, d, l).0 is Elements,
    ensures
        ({
            let n = run(s, p, d, l).0->Elements_0.len();
            let (q, dd, ll) = advance(s, p, d, l, n);
            step(s, q, dd, ll) is Stop
        }),
    decreases (s.len() - p) * 2 + (if d {
        0int
    } else {
        1int
    }),
{
    lemma_run_step(s, p, d, l);
    match step(s, p, d, l) {
        Step::Emit(e, q, dd) => {
            lemma_run_exhausted(s, q, dd, Some(e));
            let rest = run(s, q, dd, Some(e)).0->Elements_0;
            assert(run(s, p, d, l).0->Elements_0 =~= seq![e] + rest);
            assert(advance(s, p, d, l, rest.len() + 1) == advance(s, q, dd, Some(e), rest.len()));
        },
        _ => {},
    }
}

/// Finishing a builder on a previous element: each field the builder sets
/// takes the builder's value, each field it leaves unset keeps the previous
/// element's value, whatever the other fields; and it succeeds unless the
/// modifier depth does not fit in its 30 bits.
pub proof fn lemma_finish_fields(b: SourceElementBuilder, e: ElementModel)
    requires
        e.has_valid_jump(),
    ensures
        (finish(b, Some(e)) is Done) <==> (b.modifier_depth matches Some(m) ==> m < 0x4000_0000),
        finish(b, Some(e)) matches Finish::Done(x) ==> {
            &&& x.offset == (match b.offset {
                Some(o) => o,
                None => e.offset,
            })
            &&& x.length == (match b.length {
                Some(l) => l,
                None => e.length,
            })
            &&& x.index == (match b.index {
                Some(Some(i)) => i as i32,
                Some(None) => -1i32,
                None => e.index,
            })
            &&& x.jump_bits() == (match b.jump {
                Some(j) => j.code(),
                None => e.jump_bits(),
            })
            &&& x.modifier_depth() == (match b.modifier_depth {
                Some(m) => m,
                None => e.modifier_depth(),
            })
            &&& x.has_valid_jump()
        },
{
    lemma_finish_readable(b, Some(e));
    lemma_bits(e.jump_and_modifier_depth);
    let jb: u32 = match b.jump {
        Some(j) => j.code(),
        None => e.jump_bits(),
    };
    match b.jump {
        Some(j) => {
            lemma_pack_roundtrip(j.code(), e.modifier_depth());
        },
        None => {},
    }
    match b.modifier_depth {
        Some(m) => {
            if m < 0x4000_0000 {
                lemma_pack_roundtrip(jb, m);
            }
        },
        None => {},
    }
}

} // verus!
