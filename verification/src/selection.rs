//! Output selections: for each file, and for each contract in it, the outputs
//! the compiler is asked for. Files and contracts are kept as sorted maps keep
//! string keys.

use crate::order::{chars_lt, order_strs, same_str, Order};
use crate::paths::{strip_prefix_or_same, stripped};
use crate::text::owned;
use vstd::prelude::*;

verus! {

/// Keys in strictly increasing character order.
pub open spec fn keys_in_order<V>(e: Seq<(Seq<char>, V)>) -> bool {
    forall|i: int, j: int| 0 <= i < j < e.len() ==> chars_lt(#[trigger] e[i].0, #[trigger] e[j].0)
}

/// Whether `q` is where `key` stands, or would stand, among the entries.
pub open spec fn key_slot<V>(e: Seq<(Seq<char>, V)>, key: Seq<char>, q: int) -> bool {
    &&& 0 <= q <= e.len()
    &&& forall|k: int| 0 <= k < q ==> chars_lt(#[trigger] e[k].0, key)
    &&& forall|k: int| q <= k < e.len() ==> !chars_lt(#[trigger] e[k].0, key)
}

/// The slot of `key` among entries in order.
pub open spec fn slot_for<V>(e: Seq<(Seq<char>, V)>, key: Seq<char>) -> int {
    choose|q: int| key_slot(e, key, q)
}

/// The entries with `(key, value)` put in: it replaces the entry with that
/// key, or goes in at its place in order.
pub open spec fn keyed_put<V>(e: Seq<(Seq<char>, V)>, key: Seq<char>, value: V) -> Seq<(Seq<char>, V)> {
    let q = slot_for(e, key);
    if q < e.len() && e[q].0 == key {
        e.update(q, (key, value))
    } else {
        e.insert(q, (key, value))
    }
}

/// Entries collected one after the other into a sorted map: of entries with
/// the same key, the last stays.
pub open spec fn keyed_collect<V>(entries: Seq<(Seq<char>, V)>) -> Seq<(Seq<char>, V)>
    decreases entries.len(),
{
    if entries.len() == 0 {
        Seq::empty()
    } else {
        keyed_put(keyed_collect(entries.drop_last()), entries.last().0, entries.last().1)
    }
}

/// The value under `key`, or `default` where there is none.
pub open spec fn value_or<V>(e: Seq<(Seq<char>, V)>, key: Seq<char>, default: V) -> V {
    let q = slot_for(e, key);
    if q < e.len() && e[q].0 == key {
        e[q].1
    } else {
        default
    }
}

proof fn lemma_key_slot_exists<V>(e: Seq<(Seq<char>, V)>, key: Seq<char>)
    requires
        keys_in_order(e),
    ensures
        key_slot(e, key, slot_for(e, key)),
    decreases e.len(),
{
    if e.len() == 0 {
        assert(key_slot(e, key, 0));
    } else {
        let t = e.drop_last();
        assert(keys_in_order(t)) by {
            assert forall|i: int, j: int| 0 <= i < j < t.len() implies chars_lt(#[trigger] t[i].0, #[trigger] t[j].0) by {
                assert(t[i] == e[i]);
                assert(t[j] == e[j]);
            }
        }
        lemma_key_slot_exists(t, key);
        let q = slot_for(t, key);
        let last = e.len() - 1;
        if q < t.len() {
            assert(key_slot(e, key, q)) by {
                assert(t[q] == e[q]);
                assert(chars_lt(e[q].0, e[last].0));
                crate::order::lemma_chars_order(e[q].0, e[last].0, key);
                assert forall|k: int| 0 <= k < q implies chars_lt(#[trigger] e[k].0, key) by {
                    assert(e[k] == t[k]);
                }
                assert forall|k: int| q <= k < e.len() implies !chars_lt(#[trigger] e[k].0, key) by {
                    if k < last {
                        assert(e[k] == t[k]);
                    }
                }
            }
        } else if chars_lt(e[last].0, key) {
            assert(key_slot(e, key, e.len() as int)) by {
                assert forall|k: int| 0 <= k < e.len() implies chars_lt(#[trigger] e[k].0, key) by {
                    if k < last {
                        assert(e[k] == t[k]);
                    }
                }
            }
        } else {
            assert(key_slot(e, key, last)) by {
                assert forall|k: int| 0 <= k < last implies chars_lt(#[trigger] e[k].0, key) by {
                    assert(e[k] == t[k]);
                }
            }
        }
    }
}

proof fn lemma_key_slot_unique<V>(e: Seq<(Seq<char>, V)>, key: Seq<char>, q: int, q2: int)
    requires
        key_slot(e, key, q),
        key_slot(e, key, q2),
    ensures
        q == q2,
{
    if q < q2 {
        assert(chars_lt(e[q].0, key));
    } else if q2 < q {
        assert(chars_lt(e[q2].0, key));
    }
}

proof fn lemma_keyed_put_in_order<V>(e: Seq<(Seq<char>, V)>, key: Seq<char>, value: V)
    requires
        keys_in_order(e),
    ensures
        keys_in_order(keyed_put(e, key, value)),
{
    lemma_key_slot_exists(e, key);
    let q = slot_for(e, key);
    let r = keyed_put(e, key, value);
    if q < e.len() && e[q].0 == key {
        assert forall|i: int, j: int| 0 <= i < j < r.len() implies chars_lt(#[trigger] r[i].0, #[trigger] r[j].0) by {
            assert(chars_lt(e[i].0, e[j].0));
        }
    } else {
        if q < e.len() {
            crate::order::lemma_chars_order(key, e[q].0, key);
        }
        assert forall|i: int, j: int| 0 <= i < j < r.len() implies chars_lt(#[trigger] r[i].0, #[trigger] r[j].0) by {
            if j == q {
                assert(chars_lt(e[i].0, key));
            } else if i == q {
                assert(!chars_lt(e[j - 1].0, key));
                if j - 1 > q {
                    assert(chars_lt(e[q].0, e[j - 1].0));
                    crate::order::lemma_chars_order(key, e[q].0, e[j - 1].0);
                }
            } else if i < q && j > q {
                assert(chars_lt(e[i].0, e[j - 1].0));
            } else if i > q {
                assert(chars_lt(e[i - 1].0, e[j - 1].0));
            } else {
                assert(chars_lt(e[i].0, e[j].0));
            }
        }
    }
}

/// After sanitizing, every contract asks for some output: none is left with
/// the empty list the Vyper compiler rejects.
pub proof fn lemma_sanitized_asks_for_something(s: Seq<(Seq<char>, FileSelectionView)>)
    ensures
        forall|i: int, j: int| 0 <= i < sanitized(s).len() && 0 <= j < sanitized(s)[i].1.len() ==> (#[trigger] sanitized(s)[i].1[j]).1.len() > 0,
{
}

proof fn lemma_kept_outputs_allowed(o: OutputsView, allowed: Seq<Seq<char>>)
    ensures
        forall|k: int| 0 <= k < kept_outputs(o, allowed).len() ==> allowed.contains(#[trigger] kept_outputs(o, allowed)[k]),
    decreases o.len(),
{
    if o.len() > 0 {
        lemma_kept_outputs_allowed(o.drop_last(), allowed);
        let before = kept_outputs(o.drop_last(), allowed);
        let r = kept_outputs(o, allowed);
        assert forall|k: int| 0 <= k < r.len() implies allowed.contains(#[trigger] r[k]) by {
            if k < before.len() {
                assert(r[k] == before[k]);
            } else {
                assert(r[k] == o.last());
            }
        }
    }
}

/// After restricting, every output asked for is among the allowed ones.
pub proof fn lemma_restricted_only_allowed(s: Seq<(Seq<char>, FileSelectionView)>, allowed: Seq<Seq<char>>)
    ensures
        forall|i: int, j: int, k: int| 0 <= i < restricted(s, allowed).len() && 0 <= j < restricted(s, allowed)[i].1.len() && 0 <= k < restricted(s, allowed)[i].1[j].1.len() ==> allowed.contains(#[trigger] restricted(s, allowed)[i].1[j].1[k]),
{
    assert forall|i: int, j: int, k: int| 0 <= i < restricted(s, allowed).len() && 0 <= j < restricted(s, allowed)[i].1.len() && 0 <= k < restricted(s, allowed)[i].1[j].1.len() implies allowed.contains(#[trigger] restricted(s, allowed)[i].1[j].1[k]) by {
        lemma_kept_outputs_allowed(s[i].1[j].1, allowed);
    }
}

/// The keys of raw entries taken by their text.
pub open spec fn text_keyed<V>(v: Seq<(String, V)>) -> Seq<(Seq<char>, V)> {
    v.map_values(|e: (String, V)| (e.0@, e.1))
}

/// The slot of `key` among raw entries in order.
fn find_key_slot<V>(v: &Vec<(String, V)>, key: &str) -> (q: usize)
    requires
        keys_in_order(text_keyed(v@)),
    ensures
        q == slot_for(text_keyed(v@), key@),
        key_slot(text_keyed(v@), key@, q as int),
{
    let ghost kv = text_keyed(v@);
    let mut q: usize = 0;
    let mut searching = true;
    while searching && q < v.len()
        invariant
            kv == text_keyed(v@),
            keys_in_order(kv),
            q <= kv.len(),
            forall|k: int| 0 <= k < q ==> chars_lt(#[trigger] kv[k].0, key@),
            !searching ==> q < kv.len() && !chars_lt(kv[q as int].0, key@),
        decreases kv.len() - q + (if searching { 1int } else { 0int }),
    {
        match order_strs(v[q].0.as_str(), key) {
            Order::Less => {
                q = q + 1;
            },
            _ => {
                searching = false;
            },
        }
    }
    proof {
        assert forall|k: int| q <= k < kv.len() implies !chars_lt(#[trigger] kv[k].0, key@) by {
            if k > q {
                assert(chars_lt(kv[q as int].0, kv[k].0));
                crate::order::lemma_chars_order(kv[q as int].0, kv[k].0, key@);
            }
        }
        lemma_key_slot_exists(kv, key@);
        lemma_key_slot_unique(kv, key@, q as int, slot_for(kv, key@));
    }
    q
}

/// Puts an entry into raw entries in order.
fn put_key<V>(v: &mut Vec<(String, V)>, key: String, value: V)
    requires
        keys_in_order(text_keyed(old(v)@)),
    ensures
        text_keyed(final(v)@) == keyed_put(text_keyed(old(v)@), key@, value),
        keys_in_order(text_keyed(final(v)@)),
{
    let ghost kv = text_keyed(v@);
    let q = find_key_slot(v, key.as_str());
    proof {
        lemma_keyed_put_in_order(kv, key@, value);
    }
    if q < v.len() && same_str(v[q].0.as_str(), key.as_str()) {
        let _ = v.remove(q);
        v.insert(q, (key, value));
    } else {
        v.insert(q, (key, value));
    }
    assert(text_keyed(v@) =~= keyed_put(kv, key@, value));
}

/// The outputs asked of one contract.
pub type OutputsView = Seq<Seq<char>>;

/// The outputs asked of the contracts of one file.
pub type FileSelectionView = Seq<(Seq<char>, OutputsView)>;

/// The model of the outputs of one contract.
pub open spec fn outputs_view(o: Seq<String>) -> OutputsView {
    o.map_values(|s: String| s@)
}

/// The model of the selection of one file.
pub open spec fn file_selection_view(f: Seq<(String, Vec<String>)>) -> FileSelectionView {
    f.map_values(|e: (String, Vec<String>)| (e.0@, outputs_view(e.1@)))
}

/// The model of a selection.
pub open spec fn selection_view(s: Seq<(String, Vec<(String, Vec<String>)>)>) -> Seq<(Seq<char>, FileSelectionView)> {
    s.map_values(|e: (String, Vec<(String, Vec<String>)>)| (e.0@, file_selection_view(e.1@)))
}

/// For each file, and for each contract in it, the outputs asked for.
pub struct OutputSelection(pub Vec<(String, Vec<(String, Vec<String>)>)>);

impl View for OutputSelection {
    type V = Seq<(Seq<char>, FileSelectionView)>;

    open spec fn view(&self) -> Seq<(Seq<char>, FileSelectionView)> {
        selection_view(self.0@)
    }
}

/// `abi`
pub open spec fn abi() -> Seq<char> {
    "abi"@
}

/// The outputs of a contract, `abi` where none are asked for.
pub open spec fn abi_if_empty(o: OutputsView) -> OutputsView {
    if o.len() == 0 {
        seq![abi()]
    } else {
        o
    }
}

/// The selection with every empty list of outputs made `abi`.
pub open spec fn sanitized(s: Seq<(Seq<char>, FileSelectionView)>) -> Seq<(Seq<char>, FileSelectionView)> {
    s.map_values(|f: (Seq<char>, FileSelectionView)| (f.0, f.1.map_values(|c: (Seq<char>, OutputsView)| (c.0, abi_if_empty(c.1)))))
}

/// The outputs that are among `allowed`, in order.
pub open spec fn kept_outputs(o: OutputsView, allowed: Seq<Seq<char>>) -> OutputsView
    decreases o.len(),
{
    if o.len() == 0 {
        o
    } else {
        let before = kept_outputs(o.drop_last(), allowed);
        if allowed.contains(o.last()) {
            before.push(o.last())
        } else {
            before
        }
    }
}

/// The selection with only the outputs that are among `allowed`.
pub open spec fn restricted(s: Seq<(Seq<char>, FileSelectionView)>, allowed: Seq<Seq<char>>) -> Seq<(Seq<char>, FileSelectionView)> {
    s.map_values(|f: (Seq<char>, FileSelectionView)| (f.0, f.1.map_values(|c: (Seq<char>, OutputsView)| (c.0, kept_outputs(c.1, allowed)))))
}

/// The outputs resolc can produce.
pub open spec fn resolc_outputs() -> Seq<Seq<char>> {
    seq![
        "abi"@,
        "metadata"@,
        "devdoc"@,
        "userdoc"@,
        "evm.methodIdentifiers"@,
        "storageLayout"@,
        "ast"@,
        "irOptimized"@,
        "evm.legacyAssembly"@,
        "evm.bytecode"@,
        "evm.deployedBytecode"@,
        "evm.assembly"@,
        "ir"@,
    ]
}

/// The selection with the file keys stripped of `base`, collected as a sorted
/// map: of files whose keys became the same, the last stays.
pub open spec fn selection_stripped(s: Seq<(Seq<char>, FileSelectionView)>, base: Seq<char>) -> Seq<(Seq<char>, FileSelectionView)> {
    keyed_collect(s.map_values(|f: (Seq<char>, FileSelectionView)| (stripped(f.0, base), f.1)))
}

/// The selection with the abstract syntax tree of every file asked for: under
/// the file key `*`, the empty contract key asks for `ast` alone.
pub open spec fn selection_with_ast(s: Seq<(Seq<char>, FileSelectionView)>) -> Seq<(Seq<char>, FileSelectionView)> {
    keyed_put(s, "*"@, keyed_put(value_or(s, "*"@, Seq::empty()), ""@, seq!["ast"@]))
}

fn outputs_fill(o: Vec<String>) -> (r: Vec<String>)
    ensures
        outputs_view(r@) == abi_if_empty(outputs_view(o@)),
{
    if o.len() == 0 {
        let mut r: Vec<String> = Vec::new();
        r.push(owned("abi"));
        assert(outputs_view(r@) =~= seq![abi()]);
        r
    } else {
        o
    }
}

fn outputs_keep(o: Vec<String>, allowed: &Vec<String>) -> (r: Vec<String>)
    ensures
        outputs_view(r@) == kept_outputs(outputs_view(o@), outputs_view(allowed@)),
{
    let ghost ov = outputs_view(o@);
    let ghost av = outputs_view(allowed@);
    let mut rest = o;
    let mut r: Vec<String> = Vec::new();
    let ghost mut i: int = 0;
    while rest.len() > 0
        invariant
            0 <= i <= ov.len(),
            av == outputs_view(allowed@),
            outputs_view(rest@) == ov.skip(i),
            outputs_view(r@) == kept_outputs(ov.take(i), av),
        decreases rest@.len(),
    {
        let ghost pr = rest@;
        assert(ov.skip(i).len() == rest@.len());
        assert(ov.skip(i)[0] == ov[i]);
        let item = rest.remove(0);
        proof {
            assert(outputs_view(rest@) =~= outputs_view(pr).drop_first());
            assert(ov.skip(i).drop_first() =~= ov.skip(i + 1));
            assert(ov.take(i + 1).drop_last() =~= ov.take(i));
            assert(ov.take(i + 1).last() == item@);
        }
        let mut found = false;
        let mut j: usize = 0;
        while j < allowed.len() && !found
            invariant
                j <= allowed@.len(),
                av == outputs_view(allowed@),
                found == (exists|k: int| 0 <= k < j && #[trigger] av[k] == item@),
            decreases allowed@.len() - j,
        {
            assert(av[j as int] == allowed@[j as int]@);
            if same_str(allowed[j].as_str(), item.as_str()) {
                found = true;
            }
            j = j + 1;
        }
        proof {
            if !found {
                assert forall|k: int| 0 <= k < av.len() implies #[trigger] av[k] != item@ by {
                    assert(k < j);
                }
            }
            assert(found == av.contains(item@));
        }
        if found {
            let ghost before = outputs_view(r@);
            r.push(item);
            assert(outputs_view(r@) =~= before.push(ov[i]));
        }
        proof {
            i = i + 1;
        }
    }
    assert(ov.take(i) =~= ov);
    r
}

/// A slot found among raw entries is the slot among any entries with the same
/// keys.
proof fn lemma_slot_transfer<V, W>(a: Seq<(Seq<char>, V)>, b: Seq<(Seq<char>, W)>, key: Seq<char>, q: int)
    requires
        a.len() == b.len(),
        forall|k: int| 0 <= k < a.len() ==> #[trigger] a[k].0 == b[k].0,
        key_slot(a, key, q),
    ensures
        key_slot(b, key, q),
        slot_for(b, key) == q,
{
    assert forall|k: int| 0 <= k < q implies chars_lt(#[trigger] b[k].0, key) by {
        assert(a[k].0 == b[k].0);
    }
    assert forall|k: int| q <= k < b.len() implies !chars_lt(#[trigger] b[k].0, key) by {
        assert(a[k].0 == b[k].0);
    }
    assert(key_slot(b, key, q));
    lemma_key_slot_unique(b, key, q, slot_for(b, key));
}

/// Puts the selection of a file into a selection in order.
fn put_file_selection(v: &mut Vec<(String, Vec<(String, Vec<String>)>)>, key: String, value: Vec<(String, Vec<String>)>)
    requires
        keys_in_order(selection_view(old(v)@)),
    ensures
        selection_view(final(v)@) == keyed_put(selection_view(old(v)@), key@, file_selection_view(value@)),
        keys_in_order(selection_view(final(v)@)),
{
    let ghost sv = selection_view(v@);
    assert(keys_in_order(text_keyed(v@))) by {
        assert forall|i: int, j: int| 0 <= i < j < text_keyed(v@).len() implies chars_lt(#[trigger] text_keyed(v@)[i].0, #[trigger] text_keyed(v@)[j].0) by {
            assert(sv[i].0 == text_keyed(v@)[i].0);
            assert(sv[j].0 == text_keyed(v@)[j].0);
        }
    }
    let q = find_key_slot(v, key.as_str());
    proof {
        lemma_slot_transfer(text_keyed(v@), sv, key@, q as int);
        lemma_keyed_put_in_order(sv, key@, file_selection_view(value@));
    }
    let ghost fv = file_selection_view(value@);
    if q < v.len() && same_str(v[q].0.as_str(), key.as_str()) {
        let _ = v.remove(q);
        v.insert(q, (key, value));
    } else {
        v.insert(q, (key, value));
    }
    assert(selection_view(v@) =~= keyed_put(sv, key@, fv));
}

/// Puts the outputs of a contract into the selection of a file in order.
fn put_outputs(v: &mut Vec<(String, Vec<String>)>, key: String, value: Vec<String>)
    requires
        keys_in_order(file_selection_view(old(v)@)),
    ensures
        file_selection_view(final(v)@) == keyed_put(file_selection_view(old(v)@), key@, outputs_view(value@)),
        keys_in_order(file_selection_view(final(v)@)),
{
    let ghost fv = file_selection_view(v@);
    assert(keys_in_order(text_keyed(v@))) by {
        assert forall|i: int, j: int| 0 <= i < j < text_keyed(v@).len() implies chars_lt(#[trigger] text_keyed(v@)[i].0, #[trigger] text_keyed(v@)[j].0) by {
            assert(fv[i].0 == text_keyed(v@)[i].0);
            assert(fv[j].0 == text_keyed(v@)[j].0);
        }
    }
    let q = find_key_slot(v, key.as_str());
    proof {
        lemma_slot_transfer(text_keyed(v@), fv, key@, q as int);
        lemma_keyed_put_in_order(fv, key@, outputs_view(value@));
    }
    let ghost ov = outputs_view(value@);
    if q < v.len() && same_str(v[q].0.as_str(), key.as_str()) {
        let _ = v.remove(q);
        v.insert(q, (key, value));
    } else {
        v.insert(q, (key, value));
    }
    assert(file_selection_view(v@) =~= keyed_put(fv, key@, ov));
}

impl OutputSelection {
    /// Files and contracts are kept as sorted maps keep them.
    pub open spec fn wf(&self) -> bool {
        &&& keys_in_order(self@)
        &&& forall|i: int| 0 <= i < self@.len() ==> keys_in_order(#[trigger] self@[i].1)
    }

    /// Asks for `abi` wherever no output is asked for, as the Vyper compiler
    /// rejects an empty list of outputs.
    pub fn sanitize_output_selection(&mut self)
        ensures
            final(self)@ == sanitized(old(self)@),
    {
        let ghost sv = self@;
        let mut out: Vec<(String, Vec<(String, Vec<String>)>)> = Vec::new();
        let ghost mut i: int = 0;
        while self.0.len() > 0
            invariant
                0 <= i <= sv.len(),
                self@ == sv.skip(i),
                selection_view(out@) == sanitized(sv.take(i)),
            decreases self.0@.len(),
        {
            let ghost pf = self.0@;
            assert(sv.skip(i).len() == self.0@.len());
            assert(sv.skip(i)[0] == sv[i]);
            let (file, contracts) = self.0.remove(0);
            assert(pf[0] == (file, contracts));
            assert(selection_view(self.0@) =~= selection_view(pf).drop_first());
            assert(sv.skip(i).drop_first() =~= sv.skip(i + 1));
            let ghost cv = file_selection_view(contracts@);
            assert(sv[i] == (file@, cv));
            let mut rest = contracts;
            let mut done: Vec<(String, Vec<String>)> = Vec::new();
            let ghost mut j: int = 0;
            while rest.len() > 0
                invariant
                    0 <= j <= cv.len(),
                    file_selection_view(rest@) == cv.skip(j),
                    file_selection_view(done@) == cv.take(j).map_values(|c: (Seq<char>, OutputsView)| (c.0, abi_if_empty(c.1))),
                decreases rest@.len(),
            {
                let ghost pc = rest@;
                assert(cv.skip(j).len() == rest@.len());
                assert(cv.skip(j)[0] == cv[j]);
                let (name, outputs) = rest.remove(0);
                assert(file_selection_view(rest@) =~= file_selection_view(pc).drop_first());
                assert(cv.skip(j).drop_first() =~= cv.skip(j + 1));
                assert(pc[0] == (name, outputs));
                assert(cv[j] == (name@, outputs_view(outputs@)));
                let filled = outputs_fill(outputs);
                let ghost dv = file_selection_view(done@);
                done.push((name, filled));
                proof {
                    assert(file_selection_view(done@) =~= dv.push((name@, outputs_view(filled@))));
                    assert(cv.take(j + 1) =~= cv.take(j).push(cv[j]));
                    assert(cv.take(j + 1).map_values(|c: (Seq<char>, OutputsView)| (c.0, abi_if_empty(c.1))) =~= cv.take(j).map_values(|c: (Seq<char>, OutputsView)| (c.0, abi_if_empty(c.1))).push((cv[j].0, abi_if_empty(cv[j].1))));
                    j = j + 1;
                }
            }
            assert(cv.take(j) =~= cv);
            let ghost ov = selection_view(out@);
            out.push((file, done));
            proof {
                assert(selection_view(out@) =~= ov.push((file@, file_selection_view(done@))));
                assert(sv.take(i + 1) =~= sv.take(i).push(sv[i]));
                assert(sanitized(sv.take(i + 1)) =~= sanitized(sv.take(i)).push(sanitized(seq![sv[i]])[0]));
                assert(selection_view(out@) =~= sanitized(sv.take(i + 1)));
                i = i + 1;
            }
        }
        assert(sv.take(i) =~= sv);
        self.0 = out;
    }

    /// Keeps, for every contract, only the outputs that are among `allowed`.
    pub fn retain_outputs(&mut self, allowed: &Vec<String>)
        ensures
            final(self)@ == restricted(old(self)@, outputs_view(allowed@)),
    {
        let ghost sv = self@;
        let ghost av = outputs_view(allowed@);
        let mut out: Vec<(String, Vec<(String, Vec<String>)>)> = Vec::new();
        let ghost mut i: int = 0;
        while self.0.len() > 0
            invariant
                0 <= i <= sv.len(),
                av == outputs_view(allowed@),
                self@ == sv.skip(i),
                selection_view(out@) == restricted(sv.take(i), av),
            decreases self.0@.len(),
        {
            let ghost pf = self.0@;
            assert(sv.skip(i).len() == self.0@.len());
            assert(sv.skip(i)[0] == sv[i]);
            let (file, contracts) = self.0.remove(0);
            assert(pf[0] == (file, contracts));
            assert(selection_view(self.0@) =~= selection_view(pf).drop_first());
            assert(sv.skip(i).drop_first() =~= sv.skip(i + 1));
            let ghost cv = file_selection_view(contracts@);
            assert(sv[i] == (file@, cv));
            let mut rest = contracts;
            let mut done: Vec<(String, Vec<String>)> = Vec::new();
            let ghost mut j: int = 0;
            while rest.len() > 0
                invariant
                    0 <= j <= cv.len(),
                    av == outputs_view(allowed@),
                    file_selection_view(rest@) == cv.skip(j),
                    file_selection_view(done@) == cv.take(j).map_values(|c: (Seq<char>, OutputsView)| (c.0, kept_outputs(c.1, av))),
                decreases rest@.len(),
            {
                let ghost pc = rest@;
                assert(cv.skip(j).len() == rest@.len());
                assert(cv.skip(j)[0] == cv[j]);
                let (name, outputs) = rest.remove(0);
                assert(file_selection_view(rest@) =~= file_selection_view(pc).drop_first());
                assert(cv.skip(j).drop_first() =~= cv.skip(j + 1));
                assert(pc[0] == (name, outputs));
                assert(cv[j] == (name@, outputs_view(outputs@)));
                let kept = outputs_keep(outputs, allowed);
                let ghost dv = file_selection_view(done@);
                done.push((name, kept));
                proof {
                    assert(file_selection_view(done@) =~= dv.push((name@, outputs_view(kept@))));
                    assert(cv.take(j + 1) =~= cv.take(j).push(cv[j]));
                    assert(cv.take(j + 1).map_values(|c: (Seq<char>, OutputsView)| (c.0, kept_outputs(c.1, av))) =~= cv.take(j).map_values(|c: (Seq<char>, OutputsView)| (c.0, kept_outputs(c.1, av))).push((cv[j].0, kept_outputs(cv[j].1, av))));
                    j = j + 1;
                }
            }
            assert(cv.take(j) =~= cv);
            let ghost ov = selection_view(out@);
            out.push((file, done));
            proof {
                assert(selection_view(out@) =~= ov.push((file@, file_selection_view(done@))));
                assert(sv.take(i + 1) =~= sv.take(i).push(sv[i]));
                assert(restricted(sv.take(i + 1), av) =~= restricted(sv.take(i), av).push(restricted(seq![sv[i]], av)[0]));
                assert(selection_view(out@) =~= restricted(sv.take(i + 1), av));
                i = i + 1;
            }
        }
        assert(sv.take(i) =~= sv);
        self.0 = out;
    }

    /// Keeps only the outputs resolc can produce.
    pub fn retain_resolc_outputs(&mut self)
        ensures
            final(self)@ == restricted(old(self)@, resolc_outputs()),
    {
        let mut allowed: Vec<String> = Vec::new();
        allowed.push(owned("abi"));
        allowed.push(owned("metadata"));
        allowed.push(owned("devdoc"));
        allowed.push(owned("userdoc"));
        allowed.push(owned("evm.methodIdentifiers"));
        allowed.push(owned("storageLayout"));
        allowed.push(owned("ast"));
        allowed.push(owned("irOptimized"));
        allowed.push(owned("evm.legacyAssembly"));
        allowed.push(owned("evm.bytecode"));
        allowed.push(owned("evm.deployedBytecode"));
        allowed.push(owned("evm.assembly"));
        allowed.push(owned("ir"));
        assert(outputs_view(allowed@) =~= resolc_outputs());
        self.retain_outputs(&allowed);
    }
    /// Asks for the abstract syntax tree of every file: under the file key
    /// `*`, the empty contract key asks for `ast` alone.
    pub fn with_ast(self) -> (r: Self)
        requires
            self.wf(),
        ensures
            r@ == selection_with_ast(self@),
            r.wf(),
    {
        let ghost sv = self@;
        let mut files = self.0;
        assert(keys_in_order(text_keyed(files@))) by {
            assert forall|i: int, j: int| 0 <= i < j < text_keyed(files@).len() implies chars_lt(#[trigger] text_keyed(files@)[i].0, #[trigger] text_keyed(files@)[j].0) by {
                assert(sv[i].0 == text_keyed(files@)[i].0);
                assert(sv[j].0 == text_keyed(files@)[j].0);
            }
        }
        let star = owned("*");
        let q = find_key_slot(&files, star.as_str());
        proof {
            lemma_slot_transfer(text_keyed(files@), sv, "*"@, q as int);
        }
        let mut ast: Vec<String> = Vec::new();
        ast.push(owned("ast"));
        assert(outputs_view(ast@) =~= seq!["ast"@]);
        let empty = owned("");
        if q < files.len() && same_str(files[q].0.as_str(), star.as_str()) {
            assert(value_or(sv, "*"@, Seq::empty()) == sv[q as int].1);
            assert(keys_in_order(sv[q as int].1));
            let (key, inner) = files.remove(q);
            let mut inner = inner;
            put_outputs(&mut inner, empty, ast);
            let ghost iv = file_selection_view(inner@);
            assert(selection_view(files@) =~= sv.remove(q as int));
            files.insert(q, (key, inner));
            assert(selection_view(files@) =~= sv.update(q as int, ("*"@, iv)));
            proof {
                lemma_keyed_put_in_order(sv, "*"@, iv);
                assert forall|i: int| 0 <= i < selection_view(files@).len() implies keys_in_order(#[trigger] selection_view(files@)[i].1) by {
                    if i != q {
                        assert(selection_view(files@)[i] == sv[i]);
                    }
                }
            }
        } else {
            assert(value_or(sv, "*"@, Seq::empty()) == Seq::<(Seq<char>, OutputsView)>::empty());
            let mut inner: Vec<(String, Vec<String>)> = Vec::new();
            assert(file_selection_view(inner@) =~= Seq::<(Seq<char>, OutputsView)>::empty());
            put_outputs(&mut inner, empty, ast);
            let ghost iv = file_selection_view(inner@);
            files.insert(q, (star, inner));
            assert(selection_view(files@) =~= sv.insert(q as int, ("*"@, iv)));
            proof {
                lemma_keyed_put_in_order(sv, "*"@, iv);
                assert forall|i: int| 0 <= i < selection_view(files@).len() implies keys_in_order(#[trigger] selection_view(files@)[i].1) by {
                    if i < q {
                        assert(selection_view(files@)[i] == sv[i]);
                    } else if i > q {
                        assert(selection_view(files@)[i] == sv[i - 1]);
                    }
                }
            }
        }
        OutputSelection(files)
    }

    /// Takes `base` off the front of every file key it begins, as a path;
    /// files whose keys then are the same are merged as a sorted map collects
    /// them, the last staying.
    pub fn strip_prefix(&mut self, base: &str)
        ensures
            final(self)@ == selection_stripped(old(self)@, base@),
            keys_in_order(final(self)@),
            old(self).wf() ==> final(self).wf(),
    {
        let ghost sv = self@;
        let ghost entries = sv.map_values(|f: (Seq<char>, FileSelectionView)| (stripped(f.0, base@), f.1));
        let mut out: Vec<(String, Vec<(String, Vec<String>)>)> = Vec::new();
        let ghost mut i: int = 0;
        while self.0.len() > 0
            invariant
                0 <= i <= sv.len(),
                entries == sv.map_values(|f: (Seq<char>, FileSelectionView)| (stripped(f.0, base@), f.1)),
                self@ == sv.skip(i),
                selection_view(out@) == keyed_collect(entries.take(i)),
                keys_in_order(selection_view(out@)),
                forall|k: int| 0 <= k < selection_view(out@).len() ==> exists|m: int| 0 <= m < i && #[trigger] selection_view(out@)[k].1 == sv[m].1,
            decreases self.0@.len(),
        {
            let ghost pf = self.0@;
            assert(sv.skip(i).len() == self.0@.len());
            assert(sv.skip(i)[0] == sv[i]);
            let (file, contracts) = self.0.remove(0);
            assert(pf[0] == (file, contracts));
            assert(selection_view(self.0@) =~= selection_view(pf).drop_first());
            assert(sv.skip(i).drop_first() =~= sv.skip(i + 1));
            let key = strip_prefix_or_same(file, base);
            let ghost before = selection_view(out@);
            proof {
                assert(entries.take(i + 1).drop_last() =~= entries.take(i));
                assert(entries[i] == (key@, file_selection_view(contracts@)));
                lemma_key_slot_exists(before, key@);
            }
            let ghost cv = file_selection_view(contracts@);
            put_file_selection(&mut out, key, contracts);
            proof {
                let after = selection_view(out@);
                let q = slot_for(before, key@);
                assert forall|k: int| 0 <= k < after.len() implies exists|m: int| 0 <= m < i + 1 && #[trigger] after[k].1 == sv[m].1 by {
                    if q < before.len() && before[q].0 == key@ {
                        if k == q {
                            assert(after[k].1 == sv[i].1);
                        } else {
                            assert(after[k] == before[k]);
                        }
                    } else {
                        if k == q {
                            assert(after[k].1 == sv[i].1);
                        } else if k < q {
                            assert(after[k] == before[k]);
                        } else {
                            assert(after[k] == before[k - 1]);
                        }
                    }
                }
                i = i + 1;
            }
        }
        assert(entries.take(i) =~= entries);
        self.0 = out;
        proof {
            if old(self).wf() {
                let f = self@;
                assert forall|k: int| 0 <= k < f.len() implies keys_in_order(#[trigger] f[k].1) by {
                    let m = choose|m: int| 0 <= m < i && f[k].1 == sv[m].1;
                    assert(keys_in_order(sv[m].1));
                }
            }
        }
    }
}

/// The entries without the one under `key`, if any.
pub open spec fn keyed_remove<V>(e: Seq<(Seq<char>, V)>, key: Seq<char>) -> Seq<(Seq<char>, V)> {
    let q = slot_for(e, key);
    if q < e.len() && e[q].0 == key {
        e.remove(q)
    } else {
        e
    }
}

/// Each file put in, in order, with the full selection `d` where it gets full
/// output and the selection `empty` where it gets none.
pub open spec fn sparse_put(s: Seq<(Seq<char>, FileSelectionView)>, files: Seq<(Seq<char>, bool)>, d: FileSelectionView, empty: FileSelectionView) -> Seq<(Seq<char>, FileSelectionView)>
    decreases files.len(),
{
    if files.len() == 0 {
        s
    } else {
        keyed_put(
            sparse_put(s, files.drop_last(), d, empty),
            files.last().0,
            if files.last().1 { d } else { empty },
        )
    }
}

/// The selection made sparse: the `*` entry is taken out, and each file gets
/// that entry's selection (or `default` where there was none) where it gets
/// full output, `empty` where it gets none.
pub open spec fn sparse_selection(s: Seq<(Seq<char>, FileSelectionView)>, files: Seq<(Seq<char>, bool)>, default: FileSelectionView, empty: FileSelectionView) -> Seq<(Seq<char>, FileSelectionView)> {
    sparse_put(keyed_remove(s, "*"@), files, value_or(s, "*"@, default), empty)
}

/// The files of a list of files and flags, by their text.
pub open spec fn flagged_view(v: Seq<(String, bool)>) -> Seq<(Seq<char>, bool)> {
    v.map_values(|e: (String, bool)| (e.0@, e.1))
}

proof fn lemma_remove_in_order<V>(e: Seq<(Seq<char>, V)>, q: int)
    requires
        keys_in_order(e),
        0 <= q < e.len(),
    ensures
        keys_in_order(e.remove(q)),
{
    let r = e.remove(q);
    assert forall|i: int, j: int| 0 <= i < j < r.len() implies chars_lt(#[trigger] r[i].0, #[trigger] r[j].0) by {
        let a = if i < q { i } else { i + 1 };
        let b = if j < q { j } else { j + 1 };
        assert(r[i] == e[a] && r[j] == e[b]);
    }
}

fn copy_outputs(o: &Vec<String>) -> (r: Vec<String>)
    ensures
        outputs_view(r@) == outputs_view(o@),
{
    let mut r: Vec<String> = Vec::new();
    let mut i: usize = 0;
    while i < o.len()
        invariant
            i <= o@.len(),
            outputs_view(r@) == outputs_view(o@.take(i as int)),
        decreases o@.len() - i,
    {
        r.push(o[i].clone());
        assert(outputs_view(o@.take(i + 1)) =~= outputs_view(o@.take(i as int)).push(o@[i as int]@));
        assert(outputs_view(r@) =~= outputs_view(o@.take(i + 1)));
        i = i + 1;
    }
    assert(o@.take(o@.len() as int) =~= o@);
    r
}

fn copy_file_selection(f: &Vec<(String, Vec<String>)>) -> (r: Vec<(String, Vec<String>)>)
    ensures
        file_selection_view(r@) == file_selection_view(f@),
{
    let mut r: Vec<(String, Vec<String>)> = Vec::new();
    let mut i: usize = 0;
    while i < f.len()
        invariant
            i <= f@.len(),
            file_selection_view(r@) == file_selection_view(f@.take(i as int)),
        decreases f@.len() - i,
    {
        let (k, o) = &f[i];
        r.push((k.clone(), copy_outputs(o)));
        assert(file_selection_view(f@.take(i + 1)) =~= file_selection_view(f@.take(i as int)).push((k@, outputs_view(o@))));
        assert(file_selection_view(r@) =~= file_selection_view(f@.take(i + 1)));
        i = i + 1;
    }
    assert(f@.take(f@.len() as int) =~= f@);
    r
}

impl OutputSelection {
    /// Makes the selection sparse: takes out the `*` entry, and gives each of
    /// `files` the selection of that entry (or `default_file` where there was
    /// none) where its flag says it gets full output, `empty_file` otherwise.
    pub fn make_sparse(&mut self, files: &Vec<(String, bool)>, default_file: &Vec<(String, Vec<String>)>, empty_file: &Vec<(String, Vec<String>)>)
        requires
            keys_in_order(old(self)@),
        ensures
            final(self)@ == sparse_selection(old(self)@, flagged_view(files@), file_selection_view(default_file@), file_selection_view(empty_file@)),
            keys_in_order(final(self)@),
    {
        let ghost sv = self@;
        let ghost dv = file_selection_view(default_file@);
        let ghost ev = file_selection_view(empty_file@);
        let mut v: Vec<(String, Vec<(String, Vec<String>)>)> = Vec::new();
        std::mem::swap(&mut v, &mut self.0);
        assert(selection_view(v@) == sv);
        assert(keys_in_order(text_keyed(v@))) by {
            assert forall|i: int, j: int| 0 <= i < j < text_keyed(v@).len() implies chars_lt(#[trigger] text_keyed(v@)[i].0, #[trigger] text_keyed(v@)[j].0) by {
                assert(sv[i].0 == text_keyed(v@)[i].0);
                assert(sv[j].0 == text_keyed(v@)[j].0);
            }
        }
        let star = owned("*");
        let q = find_key_slot(&v, star.as_str());
        proof {
            lemma_slot_transfer(text_keyed(v@), sv, "*"@, q as int);
        }
        let d = if q < v.len() && same_str(v[q].0.as_str(), star.as_str()) {
            let (_, sel) = v.remove(q);
            assert(selection_view(v@) =~= sv.remove(q as int));
            proof {
                lemma_remove_in_order(sv, q as int);
            }
            sel
        } else {
            copy_file_selection(default_file)
        };
        let ghost dsel = file_selection_view(d@);
        assert(selection_view(v@) == keyed_remove(sv, "*"@));
        assert(dsel == value_or(sv, "*"@, dv));
        let mut i: usize = 0;
        assert(files@.take(0) =~= Seq::<(String, bool)>::empty());
        assert(flagged_view(files@.take(0)) =~= Seq::<(Seq<char>, bool)>::empty());
        while i < files.len()
            invariant
                i <= files@.len(),
                dsel == file_selection_view(d@),
                ev == file_selection_view(empty_file@),
                keys_in_order(selection_view(v@)),
                selection_view(v@) == sparse_put(keyed_remove(sv, "*"@), flagged_view(files@.take(i as int)), dsel, ev),
            decreases files@.len() - i,
        {
            let (f, full) = &files[i];
            let sel = if *full {
                copy_file_selection(&d)
            } else {
                copy_file_selection(empty_file)
            };
            put_file_selection(&mut v, f.clone(), sel);
            assert(flagged_view(files@.take(i + 1)).drop_last() =~= flagged_view(files@.take(i as int)));
            assert(flagged_view(files@.take(i + 1)).last() == (f@, *full));
            i = i + 1;
        }
        assert(files@.take(files@.len() as int) =~= files@);
        self.0 = v;
    }
}

} // verus!
