//! What a Solidity source declares, read from its text where its syntax tree
//! cannot be had: the version pragma, the imports with their aliases, the
//! contract names and the SPDX license of the first line. Each reader follows
//! a pattern, matched leftmost first as a regular expression matches it, with
//! `\s` any Unicode white space, `.` any character but a line feed, and `\w`
//! an ASCII letter, digit or `_`.

use crate::iface::utf8_width;
use crate::parse::{alias_view, imports_view, AliasView, SolImport, SolImportAlias, Spanned};
use crate::text::{is_whitespace, is_ws, slice_chars, string_from_chars};
use vstd::prelude::*;
use vstd::utf8::{encode_scalar, encode_utf8};

verus! {

/// `\w`: an ASCII letter, digit or `_`.
pub open spec fn is_word(c: char) -> bool {
    ('a' <= c && c <= 'z') || ('A' <= c && c <= 'Z') || ('0' <= c && c <= '9') || c == '_'
}

fn word_char(c: char) -> (r: bool)
    ensures
        r == is_word(c),
{
    ('a' <= c && c <= 'z') || ('A' <= c && c <= 'Z') || ('0' <= c && c <= '9') || c == '_'
}

/// The end of the run of white space from `j`.
pub open spec fn ws_end(s: Seq<char>, j: int) -> int
    decreases s.len() - j,
{
    if 0 <= j < s.len() && is_ws(s[j]) {
        ws_end(s, j + 1)
    } else {
        j
    }
}

/// The end of the run of word characters from `j`.
pub open spec fn word_end(s: Seq<char>, j: int) -> int
    decreases s.len() - j,
{
    if 0 <= j < s.len() && is_word(s[j]) {
        word_end(s, j + 1)
    } else {
        j
    }
}

/// The end of the run of word characters and `$` from `j`.
pub open spec fn name_end(s: Seq<char>, j: int) -> int
    decreases s.len() - j,
{
    if 0 <= j < s.len() && (is_word(s[j]) || s[j] == '$') {
        name_end(s, j + 1)
    } else {
        j
    }
}

/// Whether `t` stands in `s` at `j`.
pub open spec fn lit_at(s: Seq<char>, j: int, t: Seq<char>) -> bool {
    0 <= j && j + t.len() <= s.len() && s.subrange(j, j + t.len()) == t
}

/// The position of the first line feed from `j` on, or the end.
pub open spec fn line_end(s: Seq<char>, j: int) -> int
    decreases s.len() - j,
{
    if 0 <= j < s.len() && s[j] != '\n' {
        line_end(s, j + 1)
    } else {
        j
    }
}

fn ws_end_of(v: &[char], j: usize) -> (r: usize)
    requires
        j <= v@.len(),
    ensures
        r == ws_end(v@, j as int),
        j <= r <= v@.len(),
{
    let mut k = j;
    while k < v.len() && is_whitespace(v[k])
        invariant
            j <= k <= v@.len(),
            ws_end(v@, j as int) == ws_end(v@, k as int),
        decreases v@.len() - k,
    {
        k = k + 1;
    }
    k
}

fn word_end_of(v: &[char], j: usize) -> (r: usize)
    requires
        j <= v@.len(),
    ensures
        r == word_end(v@, j as int),
        j <= r <= v@.len(),
{
    let mut k = j;
    while k < v.len() && word_char(v[k])
        invariant
            j <= k <= v@.len(),
            word_end(v@, j as int) == word_end(v@, k as int),
        decreases v@.len() - k,
    {
        k = k + 1;
    }
    k
}

fn name_end_of(v: &[char], j: usize) -> (r: usize)
    requires
        j <= v@.len(),
    ensures
        r == name_end(v@, j as int),
        j <= r <= v@.len(),
{
    let mut k = j;
    while k < v.len() && (word_char(v[k]) || v[k] == '$')
        invariant
            j <= k <= v@.len(),
            name_end(v@, j as int) == name_end(v@, k as int),
        decreases v@.len() - k,
    {
        k = k + 1;
    }
    k
}

fn line_end_of(v: &[char], j: usize) -> (r: usize)
    requires
        j <= v@.len(),
    ensures
        r == line_end(v@, j as int),
        j <= r <= v@.len(),
{
    let mut k = j;
    while k < v.len() && v[k] != '\n'
        invariant
            j <= k <= v@.len(),
            line_end(v@, j as int) == line_end(v@, k as int),
        decreases v@.len() - k,
    {
        k = k + 1;
    }
    k
}

fn lit_at_of(v: &[char], j: usize, t: &[char]) -> (r: bool)
    ensures
        r == lit_at(v@, j as int, t@),
{
    if j > v.len() || t.len() > v.len() - j {
        return false;
    }
    let mut k: usize = 0;
    while k < t.len()
        invariant
            j + t@.len() <= v@.len(),
            v@.len() <= usize::MAX,
            k <= t@.len(),
            forall|m: int| 0 <= m < k ==> v@[j + m] == t@[m],
        decreases t@.len() - k,
    {
        assert(j + k < v@.len());
        if v[j + k] != t[k] {
            assert(v@.subrange(j as int, j + t@.len())[k as int] != t@[k as int]);
            return false;
        }
        k = k + 1;
    }
    assert(v@.subrange(j as int, j + t@.len()) =~= t@);
    true
}

// ---------------------------------------------------------------- byte offsets

/// The byte offset in the UTF-8 encoding of `s` at which character `i` starts.
pub open spec fn byte_at(s: Seq<char>, i: int) -> usize {
    encode_utf8(s.take(i)).len() as usize
}

proof fn lemma_encode_concat(a: Seq<char>, b: Seq<char>)
    ensures
        encode_utf8(a + b) == encode_utf8(a) + encode_utf8(b),
    decreases a.len(),
{
    if a.len() == 0 {
        assert(a + b =~= b);
        assert(encode_utf8(a) =~= Seq::<u8>::empty());
        assert(Seq::<u8>::empty() + encode_utf8(b) =~= encode_utf8(b));
    } else {
        lemma_encode_concat(a.drop_first(), b);
        assert((a + b).drop_first() =~= a.drop_first() + b);
        assert((a + b)[0] == a[0]);
        assert(encode_scalar(a[0] as u32) + (encode_utf8(a.drop_first()) + encode_utf8(b)) =~= (encode_scalar(a[0] as u32) + encode_utf8(a.drop_first())) + encode_utf8(b));
    }
}

/// The byte offset of each character of `v`, and of its end.
pub fn byte_offsets(v: &[char], total: usize) -> (r: Vec<usize>)
    requires
        encode_utf8(v@).len() == total,
    ensures
        r@.len() == v@.len() + 1,
        forall|i: int| 0 <= i <= v@.len() ==> #[trigger] r@[i] == byte_at(v@, i),
{
    let mut r: Vec<usize> = Vec::new();
    let mut b: usize = 0;
    let mut i: usize = 0;
    assert(v@.take(0) =~= Seq::<char>::empty());
    r.push(0);
    while i < v.len()
        invariant
            i <= v@.len(),
            encode_utf8(v@).len() == total,
            r@.len() == i + 1,
            b == encode_utf8(v@.take(i as int)).len(),
            forall|k: int| 0 <= k <= i ==> #[trigger] r@[k] == byte_at(v@, k),
        decreases v@.len() - i,
    {
        proof {
            lemma_encode_concat(v@.take(i as int), seq![v@[i as int]]);
            assert(v@.take(i + 1) =~= v@.take(i as int) + seq![v@[i as int]]);
            let c1 = seq![v@[i as int]];
            assert(c1.drop_first() =~= Seq::<char>::empty());
            assert(encode_utf8(Seq::<char>::empty()) =~= Seq::<u8>::empty());
            assert(encode_utf8(c1) == encode_scalar(c1[0] as u32) + encode_utf8(c1.drop_first()));
            assert(encode_utf8(c1) =~= encode_scalar(v@[i as int] as u32));
            lemma_encode_concat(v@.take(i + 1), v@.skip(i + 1));
            assert(v@ =~= v@.take(i + 1) + v@.skip(i + 1));
        }
        b = b + utf8_width(v[i]);
        i = i + 1;
        r.push(b);
    }
    r
}

// ---------------------------------------------------------------- version pragma

/// `pragma`
pub open spec fn pragma_word() -> Seq<char> {
    seq!['p', 'r', 'a', 'g', 'm', 'a']
}

/// `solidity`
pub open spec fn solidity_word() -> Seq<char> {
    seq!['s', 'o', 'l', 'i', 'd', 'i', 't', 'y']
}

/// The first `;` at `q` or after, where the characters from `q - 1` up to it
/// hold no line feed.
pub open spec fn find_semi(s: Seq<char>, q: int) -> Option<int>
    decreases s.len() - q,
{
    if q <= 0 || q >= s.len() || s[q - 1] == '\n' {
        None
    } else if s[q] == ';' {
        Some(q)
    } else {
        find_semi(s, q + 1)
    }
}

/// `\s+(.+?);` after `c`, the white space taken as long as the rest still
/// matches: the start of the version and the position of the `;`.
pub open spec fn version_from(s: Seq<char>, c: int, v: int) -> Option<(int, int)>
    decreases v - c,
{
    if v <= c {
        None
    } else {
        match find_semi(s, v + 1) {
            Some(q) => Some((v, q)),
            None => version_from(s, c, v - 1),
        }
    }
}

/// `pragma\s+solidity\s+(.+?);` at `i`.
pub open spec fn pragma_at(s: Seq<char>, i: int) -> Option<(int, int)> {
    if lit_at(s, i, pragma_word()) {
        let b = ws_end(s, i + 6);
        if b > i + 6 && lit_at(s, b, solidity_word()) {
            let c = b + 8;
            version_from(s, c, ws_end(s, c))
        } else {
            None
        }
    } else {
        None
    }
}

/// The leftmost version pragma from `i` on: where it starts, where the version
/// starts and where its `;` stands.
pub open spec fn pragma_search(s: Seq<char>, i: int) -> Option<(int, int, int)>
    decreases s.len() - i,
{
    if i < 0 || i >= s.len() {
        None
    } else {
        match pragma_at(s, i) {
            Some((v, q)) => Some((i, v, q)),
            None => pragma_search(s, i + 1),
        }
    }
}

proof fn lemma_find_semi_bounds(s: Seq<char>, q: int)
    ensures
        find_semi(s, q) matches Some(x) ==> q <= x < s.len() && s[x] == ';',
    decreases s.len() - q,
{
    if 0 < q < s.len() && s[q - 1] != '\n' && s[q] != ';' {
        lemma_find_semi_bounds(s, q + 1);
    }
}

proof fn lemma_version_from_bounds(s: Seq<char>, c: int, v: int)
    ensures
        version_from(s, c, v) matches Some((a, q)) ==> c < a <= v && a < q < s.len(),
    decreases v - c,
{
    if v > c {
        lemma_find_semi_bounds(s, v + 1);
        lemma_version_from_bounds(s, c, v - 1);
    }
}

fn find_semi_of(v: &[char], q: usize) -> (r: Option<usize>)
    ensures
        match find_semi(v@, q as int) {
            Some(x) => r == Some(x as usize),
            None => r is None,
        },
{
    proof {
        lemma_find_semi_bounds(v@, q as int);
    }
    let mut k = q;
    while k < v.len() && k > 0 && v[k - 1] != '\n' && v[k] != ';'
        invariant
            q <= k,
            find_semi(v@, q as int) == find_semi(v@, k as int),
        decreases v@.len() - k,
    {
        k = k + 1;
    }
    if k > 0 && k < v.len() && v[k - 1] != '\n' {
        Some(k)
    } else {
        None
    }
}

fn pragma_at_of(v: &[char], i: usize, pw: &[char], sw: &[char]) -> (r: Option<(usize, usize)>)
    requires
        i < v@.len(),
        pw@ == pragma_word(),
        sw@ == solidity_word(),
    ensures
        match pragma_at(v@, i as int) {
            Some((a, q)) => r == Some((a as usize, q as usize)),
            None => r is None,
        },
{
    let n = v.len();
    if !lit_at_of(v, i, pw) {
        return None;
    }
    assert(i + 6 <= v@.len());
    let b = ws_end_of(v, i + 6);
    if !(b > i + 6 && lit_at_of(v, b, sw)) {
        return None;
    }
    assert(b + 8 <= v@.len());
    let c = b + 8;
    let w = ws_end_of(v, c);
    let mut a = w;
    proof {
        lemma_version_from_bounds(v@, c as int, w as int);
    }
    assert(pragma_at(v@, i as int) == version_from(v@, c as int, w as int));
    while a > c
        invariant
            c <= a <= w <= v@.len(),
            v@.len() <= usize::MAX,
            pragma_at(v@, i as int) == version_from(v@, c as int, w as int),
            version_from(v@, c as int, w as int) == version_from(v@, c as int, a as int),
        decreases a - c,
    {
        proof {
            lemma_find_semi_bounds(v@, a + 1);
            lemma_version_from_bounds(v@, c as int, a as int);
        }
        if a < v.len() {
            match find_semi_of(v, a + 1) {
                Some(q) => {
                    return Some((a, q));
                },
                None => {},
            }
        }
        a = a - 1;
    }
    None
}

/// The version text of the leftmost version pragma, with the byte range of the
/// whole pragma.
pub open spec fn pragma_version_of(s: Seq<char>) -> Option<(Seq<char>, (usize, usize))> {
    match pragma_search(s, 0) {
        Some((i, a, q)) => Some((s.subrange(a, q), (byte_at(s, i), byte_at(s, q + 1)))),
        None => None,
    }
}

proof fn lemma_pragma_search_bounds(s: Seq<char>, i: int)
    ensures
        pragma_search(s, i) matches Some((j, a, q)) ==> i <= j < a < q < s.len(),
    decreases s.len() - i,
{
    if 0 <= i < s.len() {
        if lit_at(s, i, pragma_word()) {
            let b = ws_end(s, i + 6);
            lemma_ws_end_bounds(s, i + 6);
            if b > i + 6 && lit_at(s, b, solidity_word()) {
                lemma_ws_end_bounds(s, b + 8);
                lemma_version_from_bounds(s, b + 8, ws_end(s, b + 8));
            }
        }
        lemma_pragma_search_bounds(s, i + 1);
    }
}

proof fn lemma_ws_end_bounds(s: Seq<char>, j: int)
    ensures
        j <= ws_end(s, j),
        0 <= j <= s.len() ==> ws_end(s, j) <= s.len(),
    decreases s.len() - j,
{
    if 0 <= j < s.len() && is_ws(s[j]) {
        lemma_ws_end_bounds(s, j + 1);
    }
}

/// The version of the leftmost `pragma solidity ...;` of a text, with the byte
/// range of the pragma.
pub fn read_pragma_version(v: &[char], offsets: &[usize]) -> (r: Option<(String, (usize, usize))>)
    requires
        offsets@.len() == v@.len() + 1,
        forall|i: int| 0 <= i <= v@.len() ==> #[trigger] offsets@[i] == byte_at(v@, i),
    ensures
        match pragma_version_of(v@) {
            Some((t, sp)) => r matches Some(x) && x.0@ == t && x.1 == sp,
            None => r is None,
        },
{
    let pw = vec!['p', 'r', 'a', 'g', 'm', 'a'];
    let sw = vec!['s', 'o', 'l', 'i', 'd', 'i', 't', 'y'];
    assert(pw@ =~= pragma_word());
    assert(sw@ =~= solidity_word());
    let mut i: usize = 0;
    while i < v.len()
        invariant
            i <= v@.len(),
            offsets@.len() == v@.len() + 1,
            forall|k: int| 0 <= k <= v@.len() ==> #[trigger] offsets@[k] == byte_at(v@, k),
            pw@ == pragma_word(),
            sw@ == solidity_word(),
            pragma_search(v@, 0) == pragma_search(v@, i as int),
        decreases v@.len() - i,
    {
        match pragma_at_of(v, i, pw.as_slice(), sw.as_slice()) {
            Some((a, q)) => {
                proof {
                    lemma_pragma_search_bounds(v@, i as int);
                }
                let t = slice_chars(v, a, q);
                return Some((string_from_chars(t.as_slice()), (offsets[i], offsets[q + 1])));
            },
            None => {},
        }
        i = i + 1;
    }
    None
}

// ---------------------------------------------------------------- contract names

/// `contract`
pub open spec fn contract_word() -> Seq<char> {
    seq!['c', 'o', 'n', 't', 'r', 'a', 'c', 't']
}

/// `library`
pub open spec fn library_word() -> Seq<char> {
    seq!['l', 'i', 'b', 'r', 'a', 'r', 'y']
}

/// `abstract`
pub open spec fn abstract_word() -> Seq<char> {
    seq!['a', 'b', 's', 't', 'r', 'a', 'c', 't']
}

/// `interface`
pub open spec fn interface_word() -> Seq<char> {
    seq!['i', 'n', 't', 'e', 'r', 'f', 'a', 'c', 'e']
}

/// `\b(?:contract|library|abstract\s+contract|interface)` at `i`: where it ends.
pub open spec fn keyword_end(s: Seq<char>, i: int) -> Option<int> {
    if !(i == 0 || (0 < i <= s.len() && !is_word(s[i - 1]))) {
        None
    } else if lit_at(s, i, contract_word()) {
        Some(i + 8)
    } else if lit_at(s, i, library_word()) {
        Some(i + 7)
    } else if lit_at(s, i, abstract_word()) && ws_end(s, i + 8) > i + 8 && lit_at(s, ws_end(s, i + 8), contract_word()) {
        Some(ws_end(s, i + 8) + 8)
    } else if lit_at(s, i, interface_word()) {
        Some(i + 9)
    } else {
        None
    }
}

/// A contract declaration at `i`, `\b(?:contract|library|abstract\s+contract|interface)\s+([\w$]+)`:
/// where its name starts and ends.
pub open spec fn contract_name_at(s: Seq<char>, i: int) -> Option<(int, int)> {
    match keyword_end(s, i) {
        Some(k) => {
            let a = ws_end(s, k);
            let b = name_end(s, a);
            if k < a && a < b {
                Some((a, b))
            } else {
                None
            }
        },
        None => None,
    }
}

/// The names of the contract declarations from `i` on, each search going on
/// after the previous declaration.
pub open spec fn contract_names_from(s: Seq<char>, i: int) -> Seq<Seq<char>>
    decreases s.len() - i,
{
    if i < 0 || i >= s.len() {
        Seq::empty()
    } else {
        match contract_name_at(s, i) {
            Some((a, b)) => if i < b <= s.len() {
                seq![s.subrange(a, b)] + contract_names_from(s, b)
            } else {
                Seq::empty()
            },
            None => contract_names_from(s, i + 1),
        }
    }
}

proof fn lemma_name_end_bounds(s: Seq<char>, j: int)
    ensures
        j <= name_end(s, j),
        0 <= j <= s.len() ==> name_end(s, j) <= s.len(),
    decreases s.len() - j,
{
    if 0 <= j < s.len() && (is_word(s[j]) || s[j] == '$') {
        lemma_name_end_bounds(s, j + 1);
    }
}

proof fn lemma_word_end_bounds(s: Seq<char>, j: int)
    ensures
        j <= word_end(s, j),
        0 <= j <= s.len() ==> word_end(s, j) <= s.len(),
    decreases s.len() - j,
{
    if 0 <= j < s.len() && is_word(s[j]) {
        lemma_word_end_bounds(s, j + 1);
    }
}

proof fn lemma_line_end_bounds(s: Seq<char>, j: int)
    ensures
        j <= line_end(s, j),
        0 <= j <= s.len() ==> line_end(s, j) <= s.len(),
    decreases s.len() - j,
{
    if 0 <= j < s.len() && s[j] != '\n' {
        lemma_line_end_bounds(s, j + 1);
    }
}

fn keyword_end_of(v: &[char], i: usize, cw: &[char], lw: &[char], aw: &[char], iw: &[char]) -> (r: Option<usize>)
    requires
        i < v@.len(),
        cw@ == contract_word(),
        lw@ == library_word(),
        aw@ == abstract_word(),
        iw@ == interface_word(),
    ensures
        match keyword_end(v@, i as int) {
            Some(k) => r == Some(k as usize) && k <= v@.len(),
            None => r is None,
        },
{
    let n = v.len();
    if !(i == 0 || !word_char(v[i - 1])) {
        return None;
    }
    if lit_at_of(v, i, cw) {
        return Some(i + 8);
    }
    if lit_at_of(v, i, lw) {
        return Some(i + 7);
    }
    if lit_at_of(v, i, aw) {
        let w = ws_end_of(v, i + 8);
        if w > i + 8 && lit_at_of(v, w, cw) {
            return Some(w + 8);
        }
    }
    if lit_at_of(v, i, iw) {
        return Some(i + 9);
    }
    None
}

/// The names of the contracts, libraries and interfaces a text declares, in
/// order.
pub fn read_contract_names(v: &[char]) -> (r: Vec<String>)
    ensures
        r@.map_values(|x: String| x@) == contract_names_from(v@, 0),
{
    let cw = vec!['c', 'o', 'n', 't', 'r', 'a', 'c', 't'];
    let lw = vec!['l', 'i', 'b', 'r', 'a', 'r', 'y'];
    let aw = vec!['a', 'b', 's', 't', 'r', 'a', 'c', 't'];
    let iw = vec!['i', 'n', 't', 'e', 'r', 'f', 'a', 'c', 'e'];
    assert(cw@ =~= contract_word());
    assert(lw@ =~= library_word());
    assert(aw@ =~= abstract_word());
    assert(iw@ =~= interface_word());
    let mut r: Vec<String> = Vec::new();
    let mut i: usize = 0;
    while i < v.len()
        invariant
            i <= v@.len(),
            cw@ == contract_word(),
            lw@ == library_word(),
            aw@ == abstract_word(),
            iw@ == interface_word(),
            contract_names_from(v@, 0) == r@.map_values(|x: String| x@) + contract_names_from(v@, i as int),
        decreases v@.len() - i,
    {
        let ghost before = r@;
        match keyword_end_of(v, i, cw.as_slice(), lw.as_slice(), aw.as_slice(), iw.as_slice()) {
            Some(k) => {
                let a = ws_end_of(v, k);
                let b = name_end_of(v, a);
                if k < a && a < b {
                    let t = slice_chars(v, a, b);
                    r.push(string_from_chars(t.as_slice()));
                    assert(r@.map_values(|x: String| x@) =~= before.map_values(|x: String| x@) + seq![v@.subrange(a as int, b as int)]);
                    assert(contract_names_from(v@, i as int) == seq![v@.subrange(a as int, b as int)] + contract_names_from(v@, b as int));
                    assert(before.map_values(|x: String| x@) + (seq![v@.subrange(a as int, b as int)] + contract_names_from(v@, b as int))
                        =~= (before.map_values(|x: String| x@) + seq![v@.subrange(a as int, b as int)]) + contract_names_from(v@, b as int));
                    i = b;
                } else {
                    i = i + 1;
                }
            },
            None => {
                i = i + 1;
            },
        }
    }
    assert(contract_names_from(v@, i as int) =~= Seq::<Seq<char>>::empty());
    assert(r@.map_values(|x: String| x@) + Seq::<Seq<char>>::empty() =~= r@.map_values(|x: String| x@));
    r
}

// ---------------------------------------------------------------- imports

/// `import`
pub open spec fn import_word() -> Seq<char> {
    seq!['i', 'm', 'p', 'o', 'r', 't']
}

/// `as`
pub open spec fn as_word() -> Seq<char> {
    seq!['a', 's']
}

/// `from`
pub open spec fn from_word() -> Seq<char> {
    seq!['f', 'r', 'o', 'm']
}

/// `\s+as\s+(\w+)` at `j`: where the alias starts and ends.
pub open spec fn as_clause(s: Seq<char>, j: int) -> Option<(int, int)> {
    let a = ws_end(s, j);
    if a > j && lit_at(s, a, as_word()) {
        let b = ws_end(s, a + 2);
        let e = word_end(s, b);
        if b > a + 2 && e > b {
            Some((b, e))
        } else {
            None
        }
    } else {
        None
    }
}

/// `\s*;` at `j`: where it ends.
pub open spec fn semi_end(s: Seq<char>, j: int) -> Option<int> {
    let k = ws_end(s, j);
    if 0 <= k < s.len() && s[k] == ';' {
        Some(k + 1)
    } else {
        None
    }
}

/// What may follow a closing quote: `(?:\s+as\s+\w+)?\s*;` where the alias is
/// allowed, else `\s*;`; where it ends.
pub open spec fn quote_tail(s: Seq<char>, j: int, with_as: bool) -> Option<int> {
    if with_as {
        match as_clause(s, j) {
            Some((_, e)) => match semi_end(s, e) {
                Some(f) => Some(f),
                None => semi_end(s, j),
            },
            None => semi_end(s, j),
        }
    } else {
        semi_end(s, j)
    }
}

/// The last quote `q` at `c` or before, after `k`, that the tail can follow:
/// its position and where the tail ends.
pub open spec fn close_quote(s: Seq<char>, k: int, q: char, c: int, with_as: bool) -> Option<(int, int)>
    decreases c - k,
{
    if c <= k {
        None
    } else if 0 <= c < s.len() && s[c] == q && quote_tail(s, c + 1, with_as) is Some {
        Some((c, quote_tail(s, c + 1, with_as)->0))
    } else {
        close_quote(s, k, q, c - 1, with_as)
    }
}

/// `"(.*)"` or `'(.*)'` at `k`, then the tail: where the path starts and ends
/// and where the whole ends.
pub open spec fn quoted(s: Seq<char>, k: int, with_as: bool) -> Option<(int, int, int)> {
    if 0 <= k < s.len() && (s[k] == '"' || s[k] == '\'') {
        match close_quote(s, k, s[k], line_end(s, k + 1) - 1, with_as) {
            Some((c, e)) => Some((k + 1, c, e)),
            None => None,
        }
    } else {
        None
    }
}

/// `\s+from\s+` and a quoted path, then `\s*;`, at `j`.
pub open spec fn from_quote(s: Seq<char>, j: int) -> Option<(int, int, int)> {
    let a = ws_end(s, j);
    if a > j && lit_at(s, a, from_word()) {
        let b = ws_end(s, a + 4);
        if b > a + 4 {
            quoted(s, b, false)
        } else {
            None
        }
    } else {
        None
    }
}

/// The items of `{ ... }` from `p`, `(?:\w+(?:\s+as\s+\w+)?(?:\s*,\s*)?)+`:
/// where they end.
pub open spec fn brace_items(s: Seq<char>, p: int) -> Option<int>
    decreases s.len() - p,
{
    if 0 <= p < s.len() && is_word(s[p]) {
        let w = word_end(s, p);
        let e = match as_clause(s, w) {
            Some((_, x)) => x,
            None => w,
        };
        let c = ws_end(s, e);
        let n = if 0 <= c < s.len() && s[c] == ',' {
            ws_end(s, c + 1)
        } else {
            e
        };
        if p < n < s.len() && is_word(s[n]) {
            brace_items(s, n)
        } else {
            Some(n)
        }
    } else {
        None
    }
}

/// `\{\s*items\s*\}` at `k`: where it ends.
pub open spec fn brace_clause(s: Seq<char>, k: int) -> Option<int> {
    match brace_items(s, ws_end(s, k + 1)) {
        Some(n) => {
            let r = ws_end(s, n);
            if 0 <= r < s.len() && s[r] == '}' {
                Some(r + 1)
            } else {
                None
            }
        },
        None => None,
    }
}

/// An import statement at `i`: where its path starts and ends, and where the
/// statement ends.
pub open spec fn import_at(s: Seq<char>, i: int) -> Option<(int, int, int)> {
    if lit_at(s, i, import_word()) {
        let k = ws_end(s, i + 6);
        if k > i + 6 && k < s.len() {
            if s[k] == '"' || s[k] == '\'' {
                quoted(s, k, true)
            } else if is_word(s[k]) {
                let w = word_end(s, k);
                match as_clause(s, w) {
                    Some((_, e)) => match from_quote(s, e) {
                        Some(x) => Some(x),
                        None => from_quote(s, w),
                    },
                    None => from_quote(s, w),
                }
            } else if s[k] == '*' {
                match as_clause(s, k + 1) {
                    Some((_, e)) => from_quote(s, e),
                    None => None,
                }
            } else if s[k] == '{' {
                match brace_clause(s, k) {
                    Some(e) => from_quote(s, e),
                    None => None,
                }
            } else {
                None
            }
        } else {
            None
        }
    } else {
        None
    }
}

/// The import statements from `i` on: where each starts, where its path starts
/// and ends, and where it ends; each search goes on after the previous one.
pub open spec fn imports_from(s: Seq<char>, i: int) -> Seq<(int, int, int, int)>
    decreases s.len() - i,
{
    if i < 0 || i >= s.len() {
        Seq::empty()
    } else {
        match import_at(s, i) {
            Some((a, b, e)) => if i < e <= s.len() {
                seq![(i, a, b, e)] + imports_from(s, e)
            } else {
                Seq::empty()
            },
            None => imports_from(s, i + 1),
        }
    }
}

/// An alias in an import statement at `p`, `(?:(\w+)|\*|'|")\s+as\s+(\w+)`:
/// a renamed name gives `Contract(alias, name)`, an aliased file `File(alias)`;
/// with where it ends.
pub open spec fn alias_at(t: Seq<char>, p: int) -> Option<(AliasView, int)> {
    if 0 <= p < t.len() && is_word(t[p]) {
        let w = word_end(t, p);
        match as_clause(t, w) {
            Some((a, e)) => Some((AliasView::Contract(t.subrange(a, e), t.subrange(p, w)), e)),
            None => None,
        }
    } else if 0 <= p < t.len() && (t[p] == '*' || t[p] == '\'' || t[p] == '"') {
        match as_clause(t, p + 1) {
            Some((a, e)) => Some((AliasView::File(t.subrange(a, e)), e)),
            None => None,
        }
    } else {
        None
    }
}

/// The aliases in an import statement from `p` on.
pub open spec fn aliases_from(t: Seq<char>, p: int) -> Seq<AliasView>
    decreases t.len() - p,
{
    if p < 0 || p >= t.len() {
        Seq::empty()
    } else {
        match alias_at(t, p) {
            Some((al, e)) => if p < e <= t.len() {
                seq![al] + aliases_from(t, e)
            } else {
                Seq::empty()
            },
            None => aliases_from(t, p + 1),
        }
    }
}

/// The imports of a text: the path of each, its aliases, and the byte range of
/// the statement.
pub open spec fn imports_of(s: Seq<char>) -> Seq<(Seq<char>, Seq<AliasView>, (usize, usize))> {
    imports_from(s, 0).map_values(
        |m: (int, int, int, int)| (s.subrange(m.1, m.2), aliases_from(s.subrange(m.0, m.3), 0), (byte_at(s, m.0), byte_at(s, m.3))),
    )
}

/// The words the import reader looks for.
struct ImportWords {
    import: Vec<char>,
    as_: Vec<char>,
    from: Vec<char>,
}

impl ImportWords {
    spec fn ok(&self) -> bool {
        &&& self.import@ == import_word()
        &&& self.as_@ == as_word()
        &&& self.from@ == from_word()
    }

    fn new() -> (r: Self)
        ensures
            r.ok(),
    {
        let r = ImportWords {
            import: vec!['i', 'm', 'p', 'o', 'r', 't'],
            as_: vec!['a', 's'],
            from: vec!['f', 'r', 'o', 'm'],
        };
        assert(r.import@ =~= import_word());
        assert(r.as_@ =~= as_word());
        assert(r.from@ =~= from_word());
        r
    }
}

fn as_clause_of(v: &[char], j: usize, w: &ImportWords) -> (r: Option<(usize, usize)>)
    requires
        j <= v@.len(),
        w.ok(),
    ensures
        match as_clause(v@, j as int) {
            Some((a, e)) => r == Some((a as usize, e as usize)) && j < a < e <= v@.len(),
            None => r is None,
        },
{
    let n = v.len();
    let a = ws_end_of(v, j);
    if a > j && lit_at_of(v, a, w.as_.as_slice()) {
        assert(a + 2 <= v@.len());
        let b = ws_end_of(v, a + 2);
        let e = word_end_of(v, b);
        if b > a + 2 && e > b {
            return Some((b, e));
        }
    }
    None
}

fn semi_end_of(v: &[char], j: usize) -> (r: Option<usize>)
    requires
        j <= v@.len(),
    ensures
        match semi_end(v@, j as int) {
            Some(e) => r == Some(e as usize) && j < e <= v@.len(),
            None => r is None,
        },
{
    let n = v.len();
    let k = ws_end_of(v, j);
    if k < v.len() && v[k] == ';' {
        Some(k + 1)
    } else {
        None
    }
}

fn quote_tail_of(v: &[char], j: usize, with_as: bool, w: &ImportWords) -> (r: Option<usize>)
    requires
        j <= v@.len(),
        w.ok(),
    ensures
        match quote_tail(v@, j as int, with_as) {
            Some(e) => r == Some(e as usize) && j < e <= v@.len(),
            None => r is None,
        },
{
    let n = v.len();
    let z = semi_end_of(v, j);
    if with_as {
        let ac = as_clause_of(v, j, w);
        match ac {
            Some((a, e)) => {
                let se = semi_end_of(v, e);
                match se {
                    Some(f) => {
                        return Some(f);
                    },
                    None => {
                        return z;
                    },
                }
            },
            None => {
                return z;
            },
        }
    }
    z
}

fn quoted_of(v: &[char], k: usize, with_as: bool, w: &ImportWords) -> (r: Option<(usize, usize, usize)>)
    requires
        k <= v@.len(),
        w.ok(),
    ensures
        match quoted(v@, k as int, with_as) {
            Some((a, b, e)) => r == Some((a as usize, b as usize, e as usize)) && k < a <= b < e <= v@.len(),
            None => r is None,
        },
{
    let n = v.len();
    if !(k < v.len() && (v[k] == '"' || v[k] == '\'')) {
        return None;
    }
    let q = v[k];
    let le = line_end_of(v, k + 1);
    let mut c = le - 1;
    while c > k
        invariant
            k < v@.len(),
            v@.len() <= usize::MAX,
            q == v@[k as int],
            q == '"' || q == '\'',
            w.ok(),
            k <= c < v@.len(),
            close_quote(v@, k as int, q, line_end(v@, k + 1) - 1, with_as) == close_quote(v@, k as int, q, c as int, with_as),
        decreases c - k,
    {
        if v[c] == q {
            match quote_tail_of(v, c + 1, with_as, w) {
                Some(e) => {
                    return Some((k + 1, c, e));
                },
                None => {},
            }
        }
        c = c - 1;
    }
    None
}

fn from_quote_of(v: &[char], j: usize, w: &ImportWords) -> (r: Option<(usize, usize, usize)>)
    requires
        j <= v@.len(),
        w.ok(),
    ensures
        match from_quote(v@, j as int) {
            Some((a, b, e)) => r == Some((a as usize, b as usize, e as usize)) && j < a <= b < e <= v@.len(),
            None => r is None,
        },
{
    let n = v.len();
    let a = ws_end_of(v, j);
    if a > j && lit_at_of(v, a, w.from.as_slice()) {
        assert(a + 4 <= v@.len());
        let b = ws_end_of(v, a + 4);
        if b > a + 4 {
            return quoted_of(v, b, false, w);
        }
    }
    None
}

fn brace_clause_of(v: &[char], k: usize, w: &ImportWords) -> (r: Option<usize>)
    requires
        k < v@.len(),
        w.ok(),
    ensures
        match brace_clause(v@, k as int) {
            Some(e) => r == Some(e as usize) && k < e <= v@.len(),
            None => r is None,
        },
{
    let n = v.len();
    let mut p = ws_end_of(v, k + 1);
    let ghost p0 = p as int;
    loop
        invariant
            k < p <= v@.len(),
            v@.len() <= usize::MAX,
            w.ok(),
            brace_items(v@, p0) == brace_items(v@, p as int),
            brace_clause(v@, k as int) == match brace_items(v@, p0) {
                Some(n) => {
                    let r = ws_end(v@, n);
                    if 0 <= r < v@.len() && v@[r] == '}' {
                        Some(r + 1)
                    } else {
                        None
                    }
                },
                None => None,
            },
        decreases v@.len() - p,
    {
        if !(p < v.len() && word_char(v[p])) {
            return None;
        }
        let wd = word_end_of(v, p);
        let e = match as_clause_of(v, wd, w) {
            Some((_, x)) => x,
            None => wd,
        };
        let c = ws_end_of(v, e);
        let n = if c < v.len() && v[c] == ',' {
            ws_end_of(v, c + 1)
        } else {
            e
        };
        if p < n && n < v.len() && word_char(v[n]) {
            p = n;
        } else {
            let r = ws_end_of(v, n);
            if r < v.len() && v[r] == '}' {
                return Some(r + 1);
            }
            return None;
        }
    }
}

fn import_at_of(v: &[char], i: usize, w: &ImportWords) -> (r: Option<(usize, usize, usize)>)
    requires
        i < v@.len(),
        w.ok(),
    ensures
        match import_at(v@, i as int) {
            Some((a, b, e)) => r == Some((a as usize, b as usize, e as usize)) && i < a <= b < e <= v@.len(),
            None => r is None,
        },
{
    let n = v.len();
    if !lit_at_of(v, i, w.import.as_slice()) {
        return None;
    }
    assert(i + 6 <= v@.len());
    let k = ws_end_of(v, i + 6);
    if !(k > i + 6 && k < v.len()) {
        return None;
    }
    if v[k] == '"' || v[k] == '\'' {
        quoted_of(v, k, true, w)
    } else if word_char(v[k]) {
        let wd = word_end_of(v, k);
        match as_clause_of(v, wd, w) {
            Some((_, e)) => match from_quote_of(v, e, w) {
                Some(x) => Some(x),
                None => from_quote_of(v, wd, w),
            },
            None => from_quote_of(v, wd, w),
        }
    } else if v[k] == '*' {
        match as_clause_of(v, k + 1, w) {
            Some((_, e)) => from_quote_of(v, e, w),
            None => None,
        }
    } else if v[k] == '{' {
        match brace_clause_of(v, k, w) {
            Some(e) => from_quote_of(v, e, w),
            None => None,
        }
    } else {
        None
    }
}

fn alias_at_of(t: &[char], p: usize, w: &ImportWords) -> (r: Option<(SolImportAlias, usize)>)
    requires
        p < t@.len(),
        w.ok(),
    ensures
        match alias_at(t@, p as int) {
            Some((al, e)) => r matches Some(x) && alias_view(x.0) == al && x.1 == e && p < e <= t@.len(),
            None => r is None,
        },
{
    let n = t.len();
    if word_char(t[p]) {
        let wd = word_end_of(t, p);
        match as_clause_of(t, wd, w) {
            Some((a, e)) => {
                let al = string_from_chars(slice_chars(t, a, e).as_slice());
                let nm = string_from_chars(slice_chars(t, p, wd).as_slice());
                Some((SolImportAlias::Contract(al, nm), e))
            },
            None => None,
        }
    } else if t[p] == '*' || t[p] == '\'' || t[p] == '"' {
        match as_clause_of(t, p + 1, w) {
            Some((a, e)) => {
                let al = string_from_chars(slice_chars(t, a, e).as_slice());
                Some((SolImportAlias::File(al), e))
            },
            None => None,
        }
    } else {
        None
    }
}

fn aliases_of_text(t: &[char], w: &ImportWords) -> (r: Vec<SolImportAlias>)
    requires
        w.ok(),
    ensures
        r@.map_values(|a: SolImportAlias| alias_view(a)) == aliases_from(t@, 0),
{
    let n = t.len();
    let mut r: Vec<SolImportAlias> = Vec::new();
    let mut p: usize = 0;
    while p < t.len()
        invariant
            p <= t@.len(),
            t@.len() <= usize::MAX,
            w.ok(),
            aliases_from(t@, 0) == r@.map_values(|a: SolImportAlias| alias_view(a)) + aliases_from(t@, p as int),
        decreases t@.len() - p,
    {
        let ghost before = r@;
        match alias_at_of(t, p, w) {
            Some((al, e)) => {
                let ghost av = alias_view(al);
                r.push(al);
                assert(r@.map_values(|a: SolImportAlias| alias_view(a)) =~= before.map_values(|a: SolImportAlias| alias_view(a)) + seq![av]);
                assert(before.map_values(|a: SolImportAlias| alias_view(a)) + (seq![av] + aliases_from(t@, e as int))
                    =~= (before.map_values(|a: SolImportAlias| alias_view(a)) + seq![av]) + aliases_from(t@, e as int));
                p = e;
            },
            None => {
                p = p + 1;
            },
        }
    }
    assert(r@.map_values(|a: SolImportAlias| alias_view(a)) + aliases_from(t@, p as int) =~= r@.map_values(|a: SolImportAlias| alias_view(a)));
    r
}

/// The import statements of a text, each with its path, its aliases and the
/// byte range of the statement.
pub fn read_imports(v: &[char], offsets: &[usize]) -> (r: Vec<Spanned<SolImport>>)
    requires
        offsets@.len() == v@.len() + 1,
        forall|i: int| 0 <= i <= v@.len() ==> #[trigger] offsets@[i] == byte_at(v@, i),
    ensures
        imports_view(r@) == imports_of(v@),
{
    let n = v.len();
    let w = ImportWords::new();
    let mut r: Vec<Spanned<SolImport>> = Vec::new();
    let mut i: usize = 0;
    while i < v.len()
        invariant
            i <= v@.len(),
            v@.len() <= usize::MAX,
            w.ok(),
            offsets@.len() == v@.len() + 1,
            forall|k: int| 0 <= k <= v@.len() ==> #[trigger] offsets@[k] == byte_at(v@, k),
            imports_of(v@) == imports_view(r@) + imports_from(v@, i as int).map_values(
                |m: (int, int, int, int)| (v@.subrange(m.1, m.2), aliases_from(v@.subrange(m.0, m.3), 0), (byte_at(v@, m.0), byte_at(v@, m.3))),
            ),
        decreases v@.len() - i,
    {
        let ghost before = r@;
        match import_at_of(v, i, &w) {
            Some((a, b, e)) => {
                let stmt = slice_chars(v, i, e);
                let aliases = aliases_of_text(stmt.as_slice(), &w);
                let path = string_from_chars(slice_chars(v, a, b).as_slice());
                let imp = SolImport::new(path).set_aliases(aliases);
                r.push(Spanned::new(imp, offsets[i]..offsets[e]));
                let ghost f = |m: (int, int, int, int)| (v@.subrange(m.1, m.2), aliases_from(v@.subrange(m.0, m.3), 0), (byte_at(v@, m.0), byte_at(v@, m.3)));
                assert(imports_from(v@, i as int) == seq![(i as int, a as int, b as int, e as int)] + imports_from(v@, e as int));
                assert(imports_view(r@) =~= imports_view(before) + seq![f((i as int, a as int, b as int, e as int))]);
                assert(imports_from(v@, i as int).map_values(f) =~= seq![f((i as int, a as int, b as int, e as int))] + imports_from(v@, e as int).map_values(f));
                assert(imports_view(before) + (seq![f((i as int, a as int, b as int, e as int))] + imports_from(v@, e as int).map_values(f))
                    =~= (imports_view(before) + seq![f((i as int, a as int, b as int, e as int))]) + imports_from(v@, e as int).map_values(f));
                i = e;
            },
            None => {
                i = i + 1;
            },
        }
    }
    assert(imports_from(v@, i as int) =~= Seq::<(int, int, int, int)>::empty());
    assert(imports_view(r@) + Seq::<(Seq<char>, Seq<AliasView>, (usize, usize))>::empty() =~= imports_view(r@));
    r
}

// ---------------------------------------------------------------- license

/// `SPDX-License-Identifier:`
pub open spec fn spdx_tag() -> Seq<char> {
    seq!['S', 'P', 'D', 'X', '-', 'L', 'i', 'c', 'e', 'n', 's', 'e', '-', 'I', 'd', 'e', 'n', 't', 'i', 'f', 'i', 'e', 'r', ':']
}

/// Where the first line of a text ends: at its first line feed, before a
/// carriage return that stands right before it.
pub open spec fn first_line_end(s: Seq<char>) -> int {
    let e = line_end(s, 0);
    if 0 < e < s.len() && s[e - 1] == '\r' {
        e - 1
    } else {
        e
    }
}

/// `///?\s*SPDX-License-Identifier:\s*(.+)` at `i` in a line: where the
/// license starts (it runs to the end of the line).
pub open spec fn license_at(l: Seq<char>, i: int) -> Option<int> {
    if lit_at(l, i, seq!['/', '/']) {
        let j = if i + 2 < l.len() && l[i + 2] == '/' {
            i + 3
        } else {
            i + 2
        };
        let k = ws_end(l, j);
        if lit_at(l, k, spdx_tag()) {
            let m = k + 24;
            let n = ws_end(l, m);
            if n < l.len() {
                Some(n)
            } else if m < l.len() {
                Some(l.len() - 1)
            } else {
                None
            }
        } else {
            None
        }
    } else {
        None
    }
}

/// The leftmost license from `i` on in a line: where the match starts and
/// where the license starts.
pub open spec fn license_search(l: Seq<char>, i: int) -> Option<(int, int)>
    decreases l.len() - i,
{
    if i < 0 || i >= l.len() {
        None
    } else {
        match license_at(l, i) {
            Some(n) => Some((i, n)),
            None => license_search(l, i + 1),
        }
    }
}

/// The SPDX license identifier of the first line of a text, with the byte
/// range of the comment that holds it (to the end of the line).
pub open spec fn license_of(s: Seq<char>) -> Option<(Seq<char>, (usize, usize))> {
    if s.len() == 0 {
        None
    } else {
        let l = s.take(first_line_end(s));
        match license_search(l, 0) {
            Some((i, n)) => Some((l.subrange(n, l.len() as int), (byte_at(s, i), byte_at(s, l.len() as int)))),
            None => None,
        }
    }
}

fn license_at_of(l: &[char], i: usize, tag: &[char]) -> (r: Option<usize>)
    requires
        i < l@.len(),
        tag@ == spdx_tag(),
    ensures
        match license_at(l@, i as int) {
            Some(n) => r == Some(n as usize) && i < n < l@.len(),
            None => r is None,
        },
{
    let len = l.len();
    let slashes = vec!['/', '/'];
    assert(slashes@ =~= seq!['/', '/']);
    if !lit_at_of(l, i, slashes.as_slice()) {
        return None;
    }
    assert(i + 2 <= l@.len());
    let j = if i + 2 < len && l[i + 2] == '/' {
        i + 3
    } else {
        i + 2
    };
    let k = ws_end_of(l, j);
    if !lit_at_of(l, k, tag) {
        return None;
    }
    assert(k + 24 <= l@.len());
    let m = k + 24;
    let n = ws_end_of(l, m);
    if n < len {
        Some(n)
    } else if m < len {
        Some(len - 1)
    } else {
        None
    }
}

/// The SPDX license identifier of the first line of a text, with the byte
/// range of the comment that holds it.
pub fn read_license(v: &[char], offsets: &[usize]) -> (r: Option<(String, (usize, usize))>)
    requires
        offsets@.len() == v@.len() + 1,
        forall|i: int| 0 <= i <= v@.len() ==> #[trigger] offsets@[i] == byte_at(v@, i),
    ensures
        match license_of(v@) {
            Some((t, sp)) => r matches Some(x) && x.0@ == t && x.1 == sp,
            None => r is None,
        },
{
    let n = v.len();
    if n == 0 {
        return None;
    }
    let e = line_end_of(v, 0);
    let fe = if 0 < e && e < n && v[e - 1] == '\r' {
        e - 1
    } else {
        e
    };
    let l = slice_chars(v, 0, fe);
    assert(l@ =~= v@.take(first_line_end(v@)));
    let tag = vec!['S', 'P', 'D', 'X', '-', 'L', 'i', 'c', 'e', 'n', 's', 'e', '-', 'I', 'd', 'e', 'n', 't', 'i', 'f', 'i', 'e', 'r', ':'];
    assert(tag@ =~= spdx_tag());
    let mut i: usize = 0;
    while i < l.len()
        invariant
            i <= l@.len(),
            l@.len() <= v@.len(),
            l@ == v@.take(first_line_end(v@)),
            v@.len() > 0,
            tag@ == spdx_tag(),
            offsets@.len() == v@.len() + 1,
            forall|k: int| 0 <= k <= v@.len() ==> #[trigger] offsets@[k] == byte_at(v@, k),
            license_search(l@, 0) == license_search(l@, i as int),
        decreases l@.len() - i,
    {
        match license_at_of(l.as_slice(), i, tag.as_slice()) {
            Some(s0) => {
                let t = slice_chars(l.as_slice(), s0, l.len());
                return Some((string_from_chars(t.as_slice()), (offsets[i], offsets[l.len()])));
            },
            None => {},
        }
        i = i + 1;
    }
    None
}

/// A name character is no white space.
proof fn lemma_name_char_not_ws(c: char)
    requires
        is_word(c) || c == '$',
    ensures
        !is_ws(c),
{
}

proof fn lemma_ws_run_end(s: Seq<char>, j: int, a: int)
    requires
        0 <= j <= a < s.len(),
        forall|k: int| j <= k < a ==> is_ws(#[trigger] s[k]),
        !is_ws(s[a]),
    ensures
        ws_end(s, j) == a,
    decreases a - j,
{
    if j < a {
        lemma_ws_run_end(s, j + 1, a);
    }
}

proof fn lemma_name_run_end(s: Seq<char>, a: int, b: int)
    requires
        0 <= a <= b <= s.len(),
        forall|k: int| a <= k < b ==> (is_word(#[trigger] s[k]) || s[k] == '$'),
        b == s.len() || !(is_word(s[b]) || s[b] == '$'),
    ensures
        name_end(s, a) == b,
    decreases b - a,
{
    if a < b {
        lemma_name_run_end(s, a + 1, b);
    }
}

/// A declaration `contract N`, `library N`, `interface N` or
/// `abstract contract N` at a word boundary: the keyword, white space, then
/// the name (a run of word characters and `$` that ends there). The reader
/// finds the name N there, and reading on from there lists N first.
pub proof fn lemma_declaration_named(s: Seq<char>, i: int, kw_end: int, a: int, b: int)
    requires
        0 <= i < kw_end < a < b <= s.len(),
        i == 0 || !is_word(s[i - 1]),
        ({
            let k = s.subrange(i, kw_end);
            ||| k == seq!['c', 'o', 'n', 't', 'r', 'a', 'c', 't']
            ||| k == seq!['l', 'i', 'b', 'r', 'a', 'r', 'y']
            ||| k == seq!['i', 'n', 't', 'e', 'r', 'f', 'a', 'c', 'e']
            ||| (exists|m: int| i + 8 < m && m + 8 == kw_end
                && s.subrange(i, i + 8) == seq!['a', 'b', 's', 't', 'r', 'a', 'c', 't']
                && (forall|k: int| i + 8 <= k < m ==> is_ws(#[trigger] s[k]))
                && s.subrange(m, kw_end) == seq!['c', 'o', 'n', 't', 'r', 'a', 'c', 't'])
        }),
        forall|k: int| kw_end <= k < a ==> is_ws(#[trigger] s[k]),
        forall|k: int| a <= k < b ==> (is_word(#[trigger] s[k]) || s[k] == '$'),
        b == s.len() || !(is_word(s[b]) || s[b] == '$'),
    ensures
        contract_name_at(s, i) == Some((a, b)),
        contract_names_from(s, i) == seq![s.subrange(a, b)] + contract_names_from(s, b),
{
    lemma_name_char_not_ws(s[a]);
    lemma_ws_run_end(s, kw_end, a);
    lemma_name_run_end(s, a, b);
    let k = s.subrange(i, kw_end);
    let cw = seq!['c', 'o', 'n', 't', 'r', 'a', 'c', 't'];
    assert(contract_word() == cw);
    assert(library_word() =~= seq!['l', 'i', 'b', 'r', 'a', 'r', 'y']);
    assert(interface_word() =~= seq!['i', 'n', 't', 'e', 'r', 'f', 'a', 'c', 'e']);
    assert(abstract_word() =~= seq!['a', 'b', 's', 't', 'r', 'a', 'c', 't']);
    if k == cw {
        assert(lit_at(s, i, contract_word()));
    } else if k == seq!['l', 'i', 'b', 'r', 'a', 'r', 'y'] {
        assert(s[i] == 'l');
        assert(!lit_at(s, i, contract_word()));
        assert(lit_at(s, i, library_word()));
    } else if k == seq!['i', 'n', 't', 'e', 'r', 'f', 'a', 'c', 'e'] {
        assert(s[i] == 'i');
        assert(!lit_at(s, i, contract_word()));
        assert(!lit_at(s, i, library_word()));
        assert(!lit_at(s, i, abstract_word()));
        assert(lit_at(s, i, interface_word()));
    } else {
        let m = choose|m: int| i + 8 < m && m + 8 == kw_end
            && s.subrange(i, i + 8) == seq!['a', 'b', 's', 't', 'r', 'a', 'c', 't']
            && (forall|k: int| i + 8 <= k < m ==> is_ws(#[trigger] s[k]))
            && s.subrange(m, kw_end) == seq!['c', 'o', 'n', 't', 'r', 'a', 'c', 't'];
        assert(s[i] == s.subrange(i, i + 8)[0]);
        assert(s[i] == 'a');
        assert(!lit_at(s, i, contract_word()));
        assert(!lit_at(s, i, library_word()));
        assert(lit_at(s, i, abstract_word()));
        assert(s[m] == s.subrange(m, kw_end)[0]);
        assert(!is_ws(s[m]));
        lemma_ws_run_end(s, i + 8, m);
        assert(lit_at(s, m, contract_word()));
    }
    assert(keyword_end(s, i) == Some(kw_end));
}

} // verus!
