//! Character-level helpers shared by the parsers and printers of this crate.

use vstd::prelude::*;

verus! {

broadcast use vstd::string::group_string_axioms;

/// Appends one character to a string.
///
/// Wraps std's `String::push`; the contract states that the character is
/// appended at the end and nothing else changes.
#[verifier::external_body]
pub(crate) fn string_push(s: &mut String, c: char)
    ensures
        final(s)@ == old(s)@.push(c),
{
    s.push(c);
}

/// The characters of a string slice, in order.
pub fn chars_of(s: &str) -> (v: Vec<char>)
    ensures
        v@ == s@,
{
    let mut v: Vec<char> = Vec::new();
    for c in it: s.chars()
        invariant
            v@ == it.seq().take(it.index() as int),
            it.seq() == s@,
    {
        v.push(c);
    }
    v
}

/// Builds a string from a sequence of characters.
pub fn string_from_chars(v: &[char]) -> (s: String)
    ensures
        s@ == v@,
{
    let mut s = String::new();
    let mut i: usize = 0;
    while i < v.len()
        invariant
            i <= v@.len(),
            s@ == v@.take(i as int),
        decreases v@.len() - i,
    {
        string_push(&mut s, v[i]);
        i = i + 1;
        assert(s@ == v@.take(i as int));
    }
    assert(v@.take(v@.len() as int) == v@);
    s
}


/// Whether `c` is one of the ASCII digits `0`..`9`.
pub open spec fn is_digit(c: char) -> bool {
    '0' as u32 <= c as u32 && c as u32 <= '9' as u32
}

/// The value of an ASCII digit.
pub open spec fn digit_value(c: char) -> nat {
    (c as u32 - '0' as u32) as nat
}

/// The ASCII digit for a value below ten.
pub open spec fn digit_char(d: nat) -> char {
    (d + 48) as char
}

/// Decimal rendering of a natural number, without leading zeros.
pub open spec fn dec(n: nat) -> Seq<char>
    decreases n,
{
    if n < 10 {
        seq![digit_char(n)]
    } else {
        dec(n / 10).push(digit_char(n % 10))
    }
}

/// Decimal rendering of an integer, with a leading `-` when negative.
pub open spec fn dec_signed(i: int) -> Seq<char> {
    if i < 0 {
        seq!['-'] + dec((-i) as nat)
    } else {
        dec(i as nat)
    }
}

/// The value of a sequence of decimal digits (0 for the empty sequence).
pub open spec fn digits_value(t: Seq<char>) -> nat
    decreases t.len(),
{
    if t.len() == 0 {
        0
    } else {
        digits_value(t.drop_last()) * 10 + digit_value(t.last())
    }
}

/// Whether every character of `t` is an ASCII digit.
pub open spec fn all_digits(t: Seq<char>) -> bool {
    forall|i: int| 0 <= i < t.len() ==> is_digit(#[trigger] t[i])
}

/// Tests whether `c` is an ASCII digit.
pub fn is_ascii_digit(c: char) -> (r: bool)
    ensures
        r == is_digit(c),
{
    '0' as u32 <= c as u32 && c as u32 <= '9' as u32
}

/// Appends the decimal rendering of `n`.
pub fn push_decimal(s: &mut String, n: u64)
    ensures
        final(s)@ == old(s)@ + dec(n as nat),
    decreases n,
{
    if n >= 10 {
        push_decimal(s, n / 10);
    }
    let d: u8 = (n % 10) as u8;
    let c: char = (d + 48) as char;
    string_push(s, c);
    assert(c == digit_char((n % 10) as nat));
}

/// Appends the decimal rendering of `i`, with a leading `-` when negative.
pub fn push_signed(s: &mut String, i: i64)
    ensures
        final(s)@ == old(s)@ + dec_signed(i as int),
{
    if i < 0 {
        string_push(s, '-');
        let m: u64 = if i == i64::MIN {
            9223372036854775808u64
        } else {
            (-i) as u64
        };
        push_decimal(s, m);
        assert(final(s)@ =~= old(s)@ + (seq!['-'] + dec(m as nat)));
    } else {
        push_decimal(s, i as u64);
    }
}

/// Appends a string slice.
pub fn push_str(s: &mut String, t: &str)
    ensures
        final(s)@ == old(s)@ + t@,
{
    s.append(t);
}

/// Appends a sequence of characters.
pub fn push_chars(s: &mut String, t: &[char])
    ensures
        final(s)@ == old(s)@ + t@,
{
    let ghost s0 = s@;
    let mut i: usize = 0;
    while i < t.len()
        invariant
            i <= t@.len(),
            s@ == s0 + t@.take(i as int),
        decreases t@.len() - i,
    {
        string_push(s, t[i]);
        i = i + 1;
        assert(s@ =~= s0 + t@.take(i as int));
    }
    assert(t@.take(t@.len() as int) =~= t@);
}

/// A string holding the given slice.
pub fn owned(t: &str) -> (s: String)
    ensures
        s@ == t@,
{
    t.to_owned()
}

/// The characters `v[from..to]`.
pub fn slice_chars(v: &[char], from: usize, to: usize) -> (r: Vec<char>)
    requires
        from <= to <= v@.len(),
    ensures
        r@ == v@.subrange(from as int, to as int),
{
    let mut r: Vec<char> = Vec::new();
    let mut i = from;
    while i < to
        invariant
            from <= i <= to,
            to <= v@.len(),
            r@ == v@.subrange(from as int, i as int),
        decreases to - i,
    {
        r.push(v[i]);
        i = i + 1;
        assert(r@ =~= v@.subrange(from as int, i as int));
    }
    r
}

/// Whether two character slices are equal.
pub fn chars_eq(a: &[char], b: &[char]) -> (r: bool)
    ensures
        r == (a@ == b@),
{
    if a.len() != b.len() {
        return false;
    }
    let mut i: usize = 0;
    while i < a.len()
        invariant
            i <= a@.len(),
            a@.len() == b@.len(),
            forall|j: int| 0 <= j < i ==> a@[j] == b@[j],
        decreases a@.len() - i,
    {
        if a[i] != b[i] {
            return false;
        }
        i = i + 1;
    }
    assert(a@ =~= b@);
    true
}


/// Whether `c` has the Unicode `White_Space` property.
pub open spec fn is_ws(c: char) -> bool {
    let u = c as u32;
    (9 <= u && u <= 13) || u == 32 || u == 0x85 || u == 0xA0 || u == 0x1680 || (0x2000 <= u && u
        <= 0x200A) || u == 0x2028 || u == 0x2029 || u == 0x202F || u == 0x205F || u == 0x3000
}

/// Tests whether `c` has the Unicode `White_Space` property.
pub fn is_whitespace(c: char) -> (r: bool)
    ensures
        r == is_ws(c),
{
    let u = c as u32;
    (9 <= u && u <= 13) || u == 32 || u == 0x85 || u == 0xA0 || u == 0x1680 || (0x2000 <= u && u
        <= 0x200A) || u == 0x2028 || u == 0x2029 || u == 0x202F || u == 0x205F || u == 0x3000
}

/// `s` without its leading whitespace.
pub open spec fn trim_start(s: Seq<char>) -> Seq<char>
    decreases s.len(),
{
    if s.len() > 0 && is_ws(s[0]) {
        trim_start(s.drop_first())
    } else {
        s
    }
}

/// `s` without its trailing whitespace.
pub open spec fn trim_end(s: Seq<char>) -> Seq<char>
    decreases s.len(),
{
    if s.len() > 0 && is_ws(s.last()) {
        trim_end(s.drop_last())
    } else {
        s
    }
}

/// `s` without leading and trailing whitespace.
pub open spec fn trim(s: Seq<char>) -> Seq<char> {
    trim_end(trim_start(s))
}

/// The characters of `v` without leading and trailing whitespace.
pub fn trim_chars(v: &[char]) -> (r: Vec<char>)
    ensures
        r@ == trim(v@),
{
    let mut i: usize = 0;
    assert(v@.subrange(0, v@.len() as int) =~= v@);
    while i < v.len() && is_whitespace(v[i])
        invariant
            i <= v@.len(),
            trim_start(v@) == trim_start(v@.subrange(i as int, v@.len() as int)),
        decreases v@.len() - i,
    {
        assert(v@.subrange(i as int, v@.len() as int).drop_first() =~= v@.subrange(
            i + 1,
            v@.len() as int,
        ));
        i = i + 1;
    }
    let mut j: usize = v.len();
    let ghost t = v@.subrange(i as int, v@.len() as int);
    assert(trim_start(v@) == t) by {
        if t.len() > 0 {
            assert(t[0] == v@[i as int]);
        }
    }
    while j > i && is_whitespace(v[j - 1])
        invariant
            i <= j <= v@.len(),
            t == v@.subrange(i as int, v@.len() as int),
            trim_end(t) == trim_end(v@.subrange(i as int, j as int)),
        decreases j,
    {
        assert(v@.subrange(i as int, j as int).drop_last() =~= v@.subrange(i as int, j - 1));
        j = j - 1;
    }
    assert(trim_end(t) == v@.subrange(i as int, j as int)) by {
        let u = v@.subrange(i as int, j as int);
        if u.len() > 0 {
            assert(u.last() == v@[j - 1]);
        }
    }
    slice_chars(v, i, j)
}

/// The last position of `c` in `s`.
pub open spec fn last_index_of(s: Seq<char>, c: char) -> Option<int>
    decreases s.len(),
{
    if s.len() == 0 {
        None
    } else if s.last() == c {
        Some(s.len() - 1)
    } else {
        last_index_of(s.drop_last(), c)
    }
}

/// The first position of `c` in `s`.
pub open spec fn first_index_of(s: Seq<char>, c: char) -> Option<int>
    decreases s.len(),
{
    if s.len() == 0 {
        None
    } else if s[0] == c {
        Some(0)
    } else {
        match first_index_of(s.drop_first(), c) {
            Some(i) => Some(i + 1),
            None => None,
        }
    }
}

/// Where `last_index_of` finds `c`, and that it finds the last one.
pub proof fn lemma_last_index_of(s: Seq<char>, c: char)
    ensures
        last_index_of(s, c) matches Some(i) ==> 0 <= i < s.len() && s[i] == c && forall|k: int|
            i < k < s.len() ==> s[k] != c,
        last_index_of(s, c) is None ==> forall|k: int| 0 <= k < s.len() ==> s[k] != c,
    decreases s.len(),
{
    if s.len() > 0 && s.last() != c {
        lemma_last_index_of(s.drop_last(), c);
        assert forall|k: int| 0 <= k < s.len() - 1 implies s.drop_last()[k] == s[k] by {}
    }
}

/// Where `first_index_of` finds `c`, and that it finds the first one.
pub proof fn lemma_first_index_of(s: Seq<char>, c: char)
    ensures
        first_index_of(s, c) matches Some(i) ==> 0 <= i < s.len() && s[i] == c && forall|k: int|
            0 <= k < i ==> s[k] != c,
        first_index_of(s, c) is None ==> forall|k: int| 0 <= k < s.len() ==> s[k] != c,
    decreases s.len(),
{
    if s.len() > 0 && s[0] != c {
        lemma_first_index_of(s.drop_first(), c);
        if let Some(i) = first_index_of(s.drop_first(), c) {
            assert forall|k: int| 0 <= k < i + 1 implies s[k] != c by {
                if k > 0 {
                    assert(s[k] == s.drop_first()[k - 1]);
                }
            }
        } else {
            assert forall|k: int| 0 <= k < s.len() implies s[k] != c by {
                if k > 0 {
                    assert(s[k] == s.drop_first()[k - 1]);
                }
            }
        }
    }
}

/// The last position of `c` in `v`.
pub fn find_last(v: &[char], c: char) -> (r: Option<usize>)
    ensures
        match last_index_of(v@, c) {
            Some(i) => r == Some(i as usize),
            None => r is None,
        },
{
    let mut j: usize = v.len();
    assert(v@.take(v@.len() as int) =~= v@);
    while j > 0
        invariant
            j <= v@.len(),
            last_index_of(v@, c) == last_index_of(v@.take(j as int), c),
        decreases j,
    {
        if v[j - 1] == c {
            return Some(j - 1);
        }
        assert(v@.take(j as int).drop_last() =~= v@.take(j - 1));
        j = j - 1;
    }
    None
}

/// The first position of `c` in `v`.
pub fn find_first(v: &[char], c: char) -> (r: Option<usize>)
    ensures
        match first_index_of(v@, c) {
            Some(i) => r == Some(i as usize),
            None => r is None,
        },
        r matches Some(i) ==> i < v@.len(),
{
    let mut i: usize = 0;
    assert(v@.skip(0) =~= v@);
    while i < v.len()
        invariant
            i <= v@.len(),
            first_index_of(v@, c) == match first_index_of(v@.skip(i as int), c) {
                Some(k) => Some(k + i),
                None => None,
            },
        decreases v@.len() - i,
    {
        if v[i] == c {
            return Some(i);
        }
        assert(v@.skip(i as int).drop_first() =~= v@.skip(i + 1));
        i = i + 1;
    }
    None
}

/// Whether `s` ends with `suffix`.
pub open spec fn ends_with(s: Seq<char>, suffix: Seq<char>) -> bool {
    s.len() >= suffix.len() && s.subrange(s.len() - suffix.len(), s.len() as int) == suffix
}

/// Whether `s` starts with `prefix`.
pub open spec fn starts_with(s: Seq<char>, prefix: Seq<char>) -> bool {
    s.len() >= prefix.len() && s.subrange(0, prefix.len() as int) == prefix
}

/// Tests whether `v` ends with `suffix`.
pub fn chars_end_with(v: &[char], suffix: &[char]) -> (r: bool)
    ensures
        r == ends_with(v@, suffix@),
{
    if v.len() < suffix.len() {
        return false;
    }
    let n = v.len();
    let off = n - suffix.len();
    let mut i: usize = 0;
    while i < suffix.len()
        invariant
            off == v@.len() - suffix@.len(),
            off + suffix@.len() == v@.len(),
            n == v@.len(),
            i <= suffix@.len(),
            forall|k: int| 0 <= k < i ==> v@[off + k] == suffix@[k],
        decreases suffix@.len() - i,
    {
        if v[off + i] != suffix[i] {
            assert(v@.subrange(off as int, v@.len() as int)[i as int] != suffix@[i as int]);
            return false;
        }
        i = i + 1;
    }
    assert(v@.subrange(off as int, v@.len() as int) =~= suffix@);
    true
}

/// Tests whether `v` starts with `prefix`.
pub fn chars_start_with(v: &[char], prefix: &[char]) -> (r: bool)
    ensures
        r == starts_with(v@, prefix@),
{
    if v.len() < prefix.len() {
        return false;
    }
    let mut i: usize = 0;
    while i < prefix.len()
        invariant
            prefix@.len() <= v@.len(),
            i <= prefix@.len(),
            forall|k: int| 0 <= k < i ==> v@[k] == prefix@[k],
        decreases prefix@.len() - i,
    {
        if v[i] != prefix[i] {
            assert(v@.subrange(0, prefix@.len() as int)[i as int] != prefix@[i as int]);
            return false;
        }
        i = i + 1;
    }
    assert(v@.subrange(0, prefix@.len() as int) =~= prefix@);
    true
}

/// Tests whether `v` holds `c`.
pub fn chars_contain(v: &[char], c: char) -> (r: bool)
    ensures
        r == v@.contains(c),
{
    let mut i: usize = 0;
    while i < v.len()
        invariant
            i <= v@.len(),
            forall|k: int| 0 <= k < i ==> v@[k] != c,
        decreases v@.len() - i,
    {
        if v[i] == c {
            return true;
        }
        i = i + 1;
    }
    false
}


/// The value of an unsigned decimal integer written as `t`: an optional `+`
/// followed by at least one digit.
pub open spec fn unsigned_value(t: Seq<char>) -> Option<nat> {
    let body = if t.len() > 0 && t[0] == '+' {
        t.skip(1)
    } else {
        t
    };
    if body.len() > 0 && all_digits(body) {
        Some(digits_value(body))
    } else {
        None
    }
}

/// The value of a signed decimal integer written as `t`: an optional `+` or
/// `-` followed by at least one digit.
pub open spec fn signed_value(t: Seq<char>) -> Option<int> {
    if t.len() > 0 && t[0] == '-' {
        let body = t.skip(1);
        if body.len() > 0 && all_digits(body) {
            Some(-(digits_value(body) as int))
        } else {
            None
        }
    } else {
        match unsigned_value(t) {
            Some(v) => Some(v as int),
            None => None,
        }
    }
}

/// The value of the digits `t`, capped just above 2^64.
fn digits_capped(t: &[char]) -> (r: u128)
    requires
        all_digits(t@),
    ensures
        r <= 0x1_0000_0000_0000_0000 ==> r as nat == digits_value(t@),
        r > 0x1_0000_0000_0000_0000 ==> digits_value(t@) > 0x1_0000_0000_0000_0000,
{
    let mut acc: u128 = 0;
    let mut i: usize = 0;
    while i < t.len()
        invariant
            i <= t@.len(),
            all_digits(t@),
            acc <= 0x1_0000_0000_0000_0000 ==> acc as nat == digits_value(t@.take(i as int)),
            acc > 0x1_0000_0000_0000_0000 ==> digits_value(t@.take(i as int)) > 0x1_0000_0000_0000_0000,
            acc <= 0x1_0000_0000_0000_0000 * 10 + 9,
        decreases t@.len() - i,
    {
        let c = t[i];
        assert(is_digit(c));
        let ghost pre = t@.take(i as int);
        let ghost nxt = t@.take(i + 1);
        assert(nxt.drop_last() =~= pre);
        let d: u128 = (c as u32 - '0' as u32) as u128;
        if acc <= 0x1_0000_0000_0000_0000 {
            acc = acc * 10 + d;
        } else {
            assert(digits_value(nxt) >= digits_value(pre) * 10) by (nonlinear_arith)
                requires
                    digits_value(nxt) == digits_value(pre) * 10 + digit_value(c),
            ;
            assert(digits_value(nxt) > 0x1_0000_0000_0000_0000) by (nonlinear_arith)
                requires
                    digits_value(nxt) >= digits_value(pre) * 10,
                    digits_value(pre) > 0x1_0000_0000_0000_0000,
            ;
        }
        i = i + 1;
    }
    assert(t@.take(t@.len() as int) =~= t@);
    acc
}

fn all_digit_chars(t: &[char]) -> (r: bool)
    ensures
        r == all_digits(t@),
{
    let mut i: usize = 0;
    while i < t.len()
        invariant
            i <= t@.len(),
            forall|k: int| 0 <= k < i ==> is_digit(#[trigger] t@[k]),
        decreases t@.len() - i,
    {
        if !is_ascii_digit(t[i]) {
            return false;
        }
        i = i + 1;
    }
    true
}

/// Parses an unsigned integer (an optional `+`, then digits) that fits in `usize`.
pub fn parse_usize(t: &[char]) -> (r: Option<usize>)
    ensures
        match unsigned_value(t@) {
            Some(v) => if v <= usize::MAX {
                r == Some(v as usize)
            } else {
                r is None
            },
            None => r is None,
        },
{
    let body = if t.len() > 0 && t[0] == '+' {
        slice_chars(t, 1, t.len())
    } else {
        slice_chars(t, 0, t.len())
    };
    assert(t.len() > 0 && t@[0] == '+' ==> body@ =~= t@.skip(1));
    assert(!(t.len() > 0 && t@[0] == '+') ==> body@ =~= t@);
    if body.len() == 0 || !all_digit_chars(body.as_slice()) {
        return None;
    }
    let v = digits_capped(body.as_slice());
    if v > usize::MAX as u128 {
        return None;
    }
    Some(v as usize)
}

/// Parses a signed integer (an optional `+` or `-`, then digits) that fits in `isize`.
pub fn parse_isize(t: &[char]) -> (r: Option<isize>)
    ensures
        match signed_value(t@) {
            Some(v) => if isize::MIN <= v <= isize::MAX {
                r == Some(v as isize)
            } else {
                r is None
            },
            None => r is None,
        },
{
    if t.len() > 0 && t[0] == '-' {
        let body = slice_chars(t, 1, t.len());
        assert(body@ =~= t@.skip(1));
        if body.len() == 0 || !all_digit_chars(body.as_slice()) {
            return None;
        }
        let v = digits_capped(body.as_slice());
        if v > (isize::MAX as u128) + 1 {
            return None;
        }
        if v == (isize::MAX as u128) + 1 {
            return Some(isize::MIN);
        }
        return Some(-(v as isize));
    }
    match parse_usize(t) {
        Some(v) => if v > isize::MAX as usize {
            None
        } else {
            Some(v as isize)
        },
        None => {
            assert(unsigned_value(t@) matches Some(v) ==> v > usize::MAX);
            None
        },
    }
}

/// The pieces of `s` between the occurrences of `c`.
pub open spec fn split_on(s: Seq<char>, c: char) -> Seq<Seq<char>>
    decreases s.len(),
{
    match first_index_of(s, c) {
        Some(i) => {
            proof {
                lemma_first_index_of(s, c);
            }
            seq![s.subrange(0, i)] + split_on(s.subrange(i + 1, s.len() as int), c)
        },
        None => seq![s],
    }
}

/// The pieces of `v` between the occurrences of `c`.
pub fn split_chars(v: &[char], c: char) -> (r: Vec<Vec<char>>)
    ensures
        r@.len() == split_on(v@, c).len(),
        forall|k: int| 0 <= k < r@.len() ==> #[trigger] r@[k]@ == split_on(v@, c)[k],
{
    let mut out: Vec<Vec<char>> = Vec::new();
    let mut rest = slice_chars(v, 0, v.len());
    assert(rest@ =~= v@);
    loop
        invariant
            forall|k: int| 0 <= k < out@.len() ==> #[trigger] out@[k]@ == split_on(v@, c)[k],
            split_on(v@, c) =~= Seq::new(out@.len() as nat, |k: int| out@[k]@) + split_on(rest@, c),
        decreases rest@.len(),
    {
        proof {
            lemma_first_index_of(rest@, c);
        }
        let n = rest.len();
        match find_first(rest.as_slice(), c) {
            Some(i) => {
                assert(i < n);
                let head = slice_chars(rest.as_slice(), 0, i);
                let tail = slice_chars(rest.as_slice(), i + 1, n);
                let ghost old_out = out@;
                out.push(head);
                proof {
                    assert(Seq::new(out@.len() as nat, |k: int| out@[k]@) =~= Seq::new(old_out.len() as nat, |k: int| old_out[k]@) + seq![head@]);
                }
                rest = tail;
            },
            None => {
                let ghost old_out = out@;
                out.push(rest);
                proof {
                    assert(Seq::new(out@.len() as nat, |k: int| out@[k]@) =~= Seq::new(old_out.len() as nat, |k: int| old_out[k]@) + seq![out@[old_out.len() as int]@]);
                }
                return out;
            },
        }
    }
}


/// The decimal rendering of `n` is a non-empty run of digits whose value is `n`.
pub proof fn lemma_dec(n: nat)
    ensures
        dec(n).len() > 0,
        all_digits(dec(n)),
        digits_value(dec(n)) == n,
    decreases n,
{
    assert(digit_value(digit_char(n % 10)) == n % 10);
    assert(dec(n).last() == digit_char(n % 10));
    assert(digits_value(Seq::<char>::empty()) == 0);
    if n < 10 {
        assert(dec(n).drop_last() =~= Seq::<char>::empty());
        assert(is_digit(dec(n)[0]));
    }
    if n >= 10 {
        lemma_dec(n / 10);
        let d = dec(n / 10);
        assert(dec(n).drop_last() =~= d);
        assert(digits_value(dec(n)) == digits_value(d) * 10 + digit_value(dec(n).last()));
        assert((n / 10) * 10 + n % 10 == n);
        assert forall|i: int| 0 <= i < dec(n).len() implies is_digit(#[trigger] dec(n)[i]) by {
            if i < d.len() {
                assert(dec(n)[i] == d[i]);
            }
        }
    }
}

/// A run of digits holds no other character.
pub proof fn lemma_digits_exclude(t: Seq<char>, c: char)
    requires
        all_digits(t),
        !is_digit(c),
    ensures
        !t.contains(c),
{
    if t.contains(c) {
        let i = choose|i: int| 0 <= i < t.len() && t[i] == c;
        assert(is_digit(t[i]));
    }
}

/// Splitting at the first separator.
pub proof fn lemma_split_on_cons(a: Seq<char>, b: Seq<char>, c: char)
    requires
        !a.contains(c),
    ensures
        split_on(a + seq![c] + b, c) == seq![a] + split_on(b, c),
{
    let s = a + seq![c] + b;
    lemma_first_index_of(s, c);
    assert(s[a.len() as int] == c);
    assert forall|k: int| 0 <= k < a.len() implies s[k] != c by {
        assert(s[k] == a[k]);
        if s[k] == c {
            assert(a.contains(c));
        }
    }
    let i = first_index_of(s, c).unwrap();
    assert(i == a.len());
    assert(s.subrange(0, i) =~= a);
    assert(s.subrange(i + 1, s.len() as int) =~= b);
}

/// A sequence without the separator is a single piece.
pub proof fn lemma_split_on_single(a: Seq<char>, c: char)
    requires
        !a.contains(c),
    ensures
        split_on(a, c) == seq![a],
{
    lemma_first_index_of(a, c);
    if let Some(i) = first_index_of(a, c) {
        assert(a[i] == c);
    }
}


/// Splitting gives at least one piece.
pub proof fn lemma_split_on_len(s: Seq<char>, c: char)
    ensures
        split_on(s, c).len() >= 1,
{
}

} // verus!
