//! The factory dependencies of a dual compiled contract, nested ones included.

use crate::dual::{
    first_position, is_first, resolc_matches, BytecodeObject, BytecodeView, DualCompiledContract,
    DualCompiledContracts,
};
use crate::info::ContractInfo;
use vstd::prelude::*;

verus! {

/// The bytes of a dependency as the search reads them: a linked object's
/// bytes, none for an unlinked one.
pub open spec fn dep_bytes(b: BytecodeView) -> Seq<u8> {
    match b {
        BytecodeView::Bytecode(x) => x,
        BytecodeView::Unlinked(_) => Seq::empty(),
    }
}

/// The bytes of each dependency.
pub open spec fn deps_bytes(v: Seq<BytecodeObject>) -> Seq<Seq<u8>> {
    v.map_values(|b: BytecodeObject| dep_bytes(b@))
}

/// The dependencies that a dependency leads to: those of the first contract
/// whose resolc deployed bytecode begins it.
pub open spec fn next_deps(v: Seq<(ContractInfo, DualCompiledContract)>, x: Seq<u8>) -> Seq<Seq<u8>> {
    match first_position(v, |c: DualCompiledContract| resolc_matches(c, x)) {
        Some(i) => deps_bytes(v[i].1.resolc_factory_deps@),
        None => Seq::empty(),
    }
}

/// Whether `x` is reached from `root` in at most `n` steps.
pub open spec fn reached(v: Seq<(ContractInfo, DualCompiledContract)>, root: Seq<Seq<u8>>, n: nat, x: Seq<u8>) -> bool
    decreases n,
{
    if n == 0 {
        root.contains(x)
    } else {
        reached(v, root, (n - 1) as nat, x) || exists|y: Seq<u8>| reached(v, root, (n - 1) as nat, y) && #[trigger] next_deps(v, y).contains(x)
    }
}

/// Whether `x` is reached from `root`.
pub open spec fn reachable(v: Seq<(ContractInfo, DualCompiledContract)>, root: Seq<Seq<u8>>, x: Seq<u8>) -> bool {
    exists|n: nat| #[trigger] reached(v, root, n, x)
}

/// Every dependency of every contract.
pub open spec fn all_deps(v: Seq<(ContractInfo, DualCompiledContract)>) -> Seq<Seq<u8>>
    decreases v.len(),
{
    if v.len() == 0 {
        Seq::empty()
    } else {
        all_deps(v.drop_last()) + deps_bytes(v.last().1.resolc_factory_deps@)
    }
}

proof fn lemma_all_deps_contains(v: Seq<(ContractInfo, DualCompiledContract)>, i: int, x: Seq<u8>)
    requires
        0 <= i < v.len(),
        deps_bytes(v[i].1.resolc_factory_deps@).contains(x),
    ensures
        all_deps(v).contains(x),
    decreases v.len(),
{
    let d = deps_bytes(v.last().1.resolc_factory_deps@);
    let a = all_deps(v.drop_last());
    if i == v.len() - 1 {
        let k = choose|k: int| 0 <= k < d.len() && d[k] == x;
        assert((a + d)[a.len() + k] == x);
    } else {
        lemma_all_deps_contains(v.drop_last(), i, x);
        let k = choose|k: int| 0 <= k < a.len() && a[k] == x;
        assert((a + d)[k] == x);
    }
}

proof fn lemma_next_deps_in_all(v: Seq<(ContractInfo, DualCompiledContract)>, y: Seq<u8>, x: Seq<u8>)
    requires
        next_deps(v, y).contains(x),
    ensures
        all_deps(v).contains(x),
{
    let p = |c: DualCompiledContract| resolc_matches(c, y);
    let i = choose|i: int| is_first(v, i, p);
    lemma_all_deps_contains(v, i, x);
}

proof fn lemma_reached_in_universe(v: Seq<(ContractInfo, DualCompiledContract)>, root: Seq<Seq<u8>>, n: nat, x: Seq<u8>)
    requires
        reached(v, root, n, x),
    ensures
        (root + all_deps(v)).contains(x),
    decreases n,
{
    let u = root + all_deps(v);
    if n == 0 {
        let k = choose|k: int| 0 <= k < root.len() && root[k] == x;
        assert(u[k] == x);
    } else if reached(v, root, (n - 1) as nat, x) {
        lemma_reached_in_universe(v, root, (n - 1) as nat, x);
    } else {
        let y = choose|y: Seq<u8>| reached(v, root, (n - 1) as nat, y) && #[trigger] next_deps(v, y).contains(x);
        lemma_next_deps_in_all(v, y, x);
        let k = choose|k: int| 0 <= k < all_deps(v).len() && all_deps(v)[k] == x;
        assert(u[root.len() + k] == x);
    }
}

proof fn lemma_reached_mono(v: Seq<(ContractInfo, DualCompiledContract)>, root: Seq<Seq<u8>>, n: nat, m: nat, x: Seq<u8>)
    requires
        reached(v, root, n, x),
        n <= m,
    ensures
        reached(v, root, m, x),
    decreases m - n,
{
    if n < m {
        lemma_reached_mono(v, root, n, (m - 1) as nat, x);
    }
}

/// Every element reachable is visited, given that the root is and that
/// visited elements lead only to visited ones.
proof fn lemma_closed_contains_reached(v: Seq<(ContractInfo, DualCompiledContract)>, root: Seq<Seq<u8>>, vis: Seq<Seq<u8>>, n: nat, x: Seq<u8>)
    requires
        forall|r: Seq<u8>| root.contains(r) ==> vis.contains(r),
        forall|y: Seq<u8>, z: Seq<u8>| vis.contains(y) && #[trigger] next_deps(v, y).contains(z) ==> vis.contains(z),
        reached(v, root, n, x),
    ensures
        vis.contains(x),
    decreases n,
{
    if n > 0 {
        if reached(v, root, (n - 1) as nat, x) {
            lemma_closed_contains_reached(v, root, vis, (n - 1) as nat, x);
        } else {
            let y = choose|y: Seq<u8>| reached(v, root, (n - 1) as nat, y) && #[trigger] next_deps(v, y).contains(x);
            lemma_closed_contains_reached(v, root, vis, (n - 1) as nat, y);
        }
    }
}

fn dep_bytes_of(b: &BytecodeObject) -> (r: Vec<u8>)
    ensures
        r@ == dep_bytes(b@),
{
    match b {
        BytecodeObject::Bytecode(x) => {
            let mut r: Vec<u8> = Vec::new();
            let mut i: usize = 0;
            while i < x.len()
                invariant
                    i <= x@.len(),
                    r@ == x@.take(i as int),
                decreases x@.len() - i,
            {
                r.push(x[i]);
                i = i + 1;
            }
            assert(x@.take(x@.len() as int) =~= x@);
            r
        },
        BytecodeObject::Unlinked(_) => Vec::new(),
    }
}

/// The views of byte vectors.
pub open spec fn byte_views(v: Seq<Vec<u8>>) -> Seq<Seq<u8>> {
    v.map_values(|b: Vec<u8>| b@)
}

fn contains_bytes(v: &Vec<Vec<u8>>, x: &Vec<u8>) -> (r: bool)
    ensures
        r == byte_views(v@).contains(x@),
{
    let mut i: usize = 0;
    while i < v.len()
        invariant
            i <= v@.len(),
            forall|k: int| 0 <= k < i ==> #[trigger] v@[k]@ != x@,
        decreases v@.len() - i,
    {
        if bytes_equal(v[i].as_slice(), x.as_slice()) {
            assert(byte_views(v@)[i as int] == x@);
            return true;
        }
        i = i + 1;
    }
    proof {
        if byte_views(v@).contains(x@) {
            let k = choose|k: int| 0 <= k < v@.len() && #[trigger] byte_views(v@)[k] == x@;
            assert(v@[k]@ == x@);
        }
    }
    false
}

fn bytes_equal(a: &[u8], b: &[u8]) -> (r: bool)
    ensures
        r == (a@ == b@),
{
    if a.len() != b.len() {
        return false;
    }
    let mut i: usize = 0;
    while i < a.len()
        invariant
            a@.len() == b@.len(),
            i <= a@.len(),
            forall|k: int| 0 <= k < i ==> a@[k] == b@[k],
        decreases a@.len() - i,
    {
        if a[i] != b[i] {
            return false;
        }
        i = i + 1;
    }
    assert(a@ =~= b@);
    true
}

/// The state of the search: `vis` visited, `queue` from `head` on still to
/// visit.
spec fn search_state(v: Seq<(ContractInfo, DualCompiledContract)>, root: Seq<Seq<u8>>, vis: Seq<Seq<u8>>, queue: Seq<Seq<u8>>, head: int) -> bool {
    &&& 0 <= head <= queue.len()
    &&& vis.no_duplicates()
    &&& forall|x: Seq<u8>| #[trigger] vis.contains(x) ==> reachable(v, root, x)
    &&& forall|k: int| 0 <= k < queue.len() ==> reachable(v, root, #[trigger] queue[k])
    &&& forall|r: Seq<u8>| #[trigger] root.contains(r) ==> vis.contains(r) || queue.skip(head).contains(r)
    &&& forall|y: Seq<u8>, z: Seq<u8>| vis.contains(y) && #[trigger] next_deps(v, y).contains(z) ==> vis.contains(z) || queue.skip(head).contains(z)
}

impl DualCompiledContracts {
    /// Finds a contract own and nested factory deps: the bytes of the root's
    /// factory dependencies, and, for each dependency found, those of the
    /// first contract whose resolc deployed bytecode begins it; each once.
    pub fn fetch_all_factory_deps(&self, root: &DualCompiledContract) -> (r: Vec<BytecodeObject>)
        ensures
            deps_bytes(r@).no_duplicates(),
            forall|k: int| 0 <= k < r@.len() ==> (#[trigger] r@[k]) is Bytecode,
            forall|x: Seq<u8>| #[trigger] deps_bytes(r@).contains(x) <==> reachable(self.entries(), deps_bytes(root.resolc_factory_deps@), x),
    {
        let ghost v = self.entries();
        let ghost rootd = deps_bytes(root.resolc_factory_deps@);
        let ghost u = (rootd + all_deps(v)).to_set();
        let mut queue: Vec<Vec<u8>> = Vec::new();
        let mut k: usize = 0;
        while k < root.resolc_factory_deps.len()
            invariant
                k <= root.resolc_factory_deps@.len(),
                rootd == deps_bytes(root.resolc_factory_deps@),
                byte_views(queue@) == rootd.take(k as int),
            decreases root.resolc_factory_deps@.len() - k,
        {
            let b = dep_bytes_of(&root.resolc_factory_deps[k]);
            let ghost before = queue@;
            assert(rootd[k as int] == b@);
            queue.push(b);
            assert(byte_views(queue@) =~= byte_views(before).push(rootd[k as int]));
            assert(byte_views(queue@) =~= rootd.take(k + 1));
            k = k + 1;
        }
        assert(rootd.take(rootd.len() as int) =~= rootd);
        let mut visited: Vec<Vec<u8>> = Vec::new();
        let mut head: usize = 0;
        proof {
            assert forall|k: int| 0 <= k < byte_views(queue@).len() implies reachable(v, rootd, #[trigger] byte_views(queue@)[k]) by {
                assert(rootd[k] == byte_views(queue@)[k]);
                assert(reached(v, rootd, 0, rootd[k]));
            }
            assert(byte_views(queue@).skip(0) =~= rootd);
            assert(search_state(v, rootd, byte_views(visited@), byte_views(queue@), 0));
            seq_to_set_is_finite_here(rootd + all_deps(v));
        }
        while head < queue.len()
            invariant
                v == self.entries(),
                rootd == deps_bytes(root.resolc_factory_deps@),
                u == (rootd + all_deps(v)).to_set(),
                u.finite(),
                search_state(v, rootd, byte_views(visited@), byte_views(queue@), head as int),
            decreases u.len() - byte_views(visited@).len(), queue@.len() - head,
        {
            let ghost vis0 = byte_views(visited@);
            let ghost q0 = byte_views(queue@);
            let d = dep_bytes_copy(&queue[head]);
            head = head + 1;
            assert(q0.skip(head - 1) =~= seq![d@] + q0.skip(head as int));
            proof {
                lemma_visited_in_universe(v, rootd, vis0, u);
            }
            if !contains_bytes(&visited, &d) {
                visited.push(dep_bytes_copy(&d));
                let ghost vis1 = byte_views(visited@);
                assert(vis1 =~= vis0.push(d@));
                proof {
                    lemma_push_no_dup(vis0, d@);
                    assert(q0[head - 1] == d@);
                    assert(reachable(v, rootd, d@));
                    lemma_push_reachable(v, rootd, vis0, d@);
                    lemma_visited_in_universe(v, rootd, vis1, u);
                    assert(vis1[vis0.len() as int] == d@);
                }
                match self.find_by_resolc_deployed_bytecode(d.as_slice()) {
                    Some((_, c)) => {
                        let ghost p = |cc: DualCompiledContract| resolc_matches(cc, d@);
                        proof {
                            let i = choose|i: int| is_first(v, i, p) && *c == v[i].1;
                            crate::dual::lemma_first_position(v, p, i);
                        }
                        let ghost nd = deps_bytes(c.resolc_factory_deps@);
                        assert(next_deps(v, d@) == nd);
                        let mut j: usize = 0;
                        while j < c.resolc_factory_deps.len()
                            invariant
                                v == self.entries(),
                                rootd == deps_bytes(root.resolc_factory_deps@),
                                nd == deps_bytes(c.resolc_factory_deps@),
                                nd == next_deps(v, d@),
                                reachable(v, rootd, d@),
                                byte_views(visited@) == vis1,
                                vis1.contains(d@),
                                j <= nd.len(),
                                1 <= head <= queue@.len(),
                                forall|k: int| 0 <= k < byte_views(queue@).len() ==> reachable(v, rootd, #[trigger] byte_views(queue@)[k]),
                                forall|k: int| 0 <= k < j ==> vis1.contains(#[trigger] nd[k]) || byte_views(queue@).skip(head as int).contains(nd[k]),
                                q0.skip(head as int).len() <= byte_views(queue@).skip(head as int).len(),
                                forall|x: Seq<u8>| #[trigger] q0.skip(head as int).contains(x) ==> byte_views(queue@).skip(head as int).contains(x),
                            decreases nd.len() - j,
                        {
                            let nb = dep_bytes_of(&c.resolc_factory_deps[j]);
                            let ghost qb = byte_views(queue@);
                            if !contains_bytes(&visited, &nb) {
                                queue.push(nb);
                                proof {
                                    let qa = byte_views(queue@);
                                    assert(qa =~= qb.push(nd[j as int]));
                                    assert(qa.skip(head as int) =~= qb.skip(head as int).push(nd[j as int]));
                                    assert(qa.skip(head as int)[qb.skip(head as int).len() as int] == nd[j as int]);
                                    lemma_dep_reachable(v, rootd, d@, nd[j as int]);
                                    assert forall|x: Seq<u8>| #[trigger] qb.skip(head as int).contains(x) implies qa.skip(head as int).contains(x) by {
                                        let t = choose|t: int| 0 <= t < qb.skip(head as int).len() && qb.skip(head as int)[t] == x;
                                        assert(qa.skip(head as int)[t] == x);
                                    }
                                    assert forall|k: int| 0 <= k < qa.len() implies reachable(v, rootd, #[trigger] qa[k]) by {
                                        if k < qb.len() {
                                            assert(qa[k] == qb[k]);
                                        }
                                    }
                                }
                            }
                            j = j + 1;
                        }
                        proof {
                            let q1 = byte_views(queue@);
                            assert forall|z: Seq<u8>| #[trigger] next_deps(v, d@).contains(z) implies vis0.push(d@).contains(z) || q1.skip(head as int).contains(z) by {
                                let k = choose|k: int| 0 <= k < nd.len() && nd[k] == z;
                                assert(vis1.contains(nd[k]) || q1.skip(head as int).contains(nd[k]));
                            }
                            lemma_step_state(v, rootd, vis0, q0, head as int, d@, q1);
                        }
                    },
                    None => {
                        proof {
                            let p = |cc: DualCompiledContract| resolc_matches(cc, d@);
                            crate::dual::lemma_first_position_none(v, p);
                            assert(next_deps(v, d@) =~= Seq::<Seq<u8>>::empty());
                            lemma_step_state(v, rootd, vis0, q0, head as int, d@, q0);
                        }
                    },
                }
            } else {
                proof {
                    let qa = q0.skip(head - 1);
                    let qb = q0.skip(head as int);
                    assert(qa[0] == d@);
                    assert forall|r: Seq<u8>| #[trigger] rootd.contains(r) implies vis0.contains(r) || qb.contains(r) by {
                        if qa.contains(r) && r != d@ {
                            let t = choose|t: int| 0 <= t < qa.len() && qa[t] == r;
                            assert(qb[t - 1] == r);
                        }
                    }
                    assert forall|y: Seq<u8>, z: Seq<u8>| vis0.contains(y) && #[trigger] next_deps(v, y).contains(z) implies vis0.contains(z) || qb.contains(z) by {
                        if qa.contains(z) && z != d@ {
                            let t = choose|t: int| 0 <= t < qa.len() && qa[t] == z;
                            assert(qb[t - 1] == z);
                        }
                    }
                }
            }
        }
        proof {
            let vis = byte_views(visited@);
            assert(byte_views(queue@).skip(head as int) =~= Seq::<Seq<u8>>::empty());
            assert forall|x: Seq<u8>| reachable(v, rootd, x) implies vis.contains(x) by {
                let n = choose|n: nat| #[trigger] reached(v, rootd, n, x);
                lemma_closed_contains_reached(v, rootd, vis, n, x);
            }
        }
        let mut out: Vec<BytecodeObject> = Vec::new();
        let mut i: usize = 0;
        while i < visited.len()
            invariant
                i <= visited@.len(),
                deps_bytes(out@) == byte_views(visited@).take(i as int),
                forall|k: int| 0 <= k < out@.len() ==> (#[trigger] out@[k]) is Bytecode,
            decreases visited@.len() - i,
        {
            let b = dep_bytes_copy(&visited[i]);
            let ghost before = out@;
            let ghost bv = b@;
            out.push(BytecodeObject::Bytecode(b));
            assert(deps_bytes(out@) =~= deps_bytes(before).push(bv));
            assert(byte_views(visited@)[i as int] == bv);
            assert(deps_bytes(out@) =~= byte_views(visited@).take(i + 1));
            i = i + 1;
        }
        assert(byte_views(visited@).take(visited@.len() as int) =~= byte_views(visited@));
        out
    }
}

fn dep_bytes_copy(b: &Vec<u8>) -> (r: Vec<u8>)
    ensures
        r@ == b@,
{
    let mut r: Vec<u8> = Vec::new();
    let mut i: usize = 0;
    while i < b.len()
        invariant
            i <= b@.len(),
            r@ == b@.take(i as int),
        decreases b@.len() - i,
    {
        r.push(b[i]);
        i = i + 1;
    }
    assert(b@.take(b@.len() as int) =~= b@);
    r
}

proof fn seq_to_set_is_finite_here(s: Seq<Seq<u8>>)
    ensures
        s.to_set().finite(),
{
    vstd::seq_lib::seq_to_set_is_finite(s);
}

proof fn lemma_push_reachable(v: Seq<(ContractInfo, DualCompiledContract)>, root: Seq<Seq<u8>>, vis0: Seq<Seq<u8>>, d: Seq<u8>)
    requires
        forall|x: Seq<u8>| #[trigger] vis0.contains(x) ==> reachable(v, root, x),
        reachable(v, root, d),
    ensures
        forall|x: Seq<u8>| #[trigger] vis0.push(d).contains(x) ==> reachable(v, root, x),
{
    let vis1 = vis0.push(d);
    assert forall|x: Seq<u8>| #[trigger] vis1.contains(x) implies reachable(v, root, x) by {
        if x != d {
            let t = choose|t: int| 0 <= t < vis1.len() && vis1[t] == x;
            assert(vis0[t] == x);
            assert(vis0.contains(x));
        }
    }
}

proof fn lemma_push_no_dup(s: Seq<Seq<u8>>, x: Seq<u8>)
    requires
        s.no_duplicates(),
        !s.contains(x),
    ensures
        s.push(x).no_duplicates(),
{
    let t = s.push(x);
    assert forall|a: int, b: int| 0 <= a < t.len() && 0 <= b < t.len() && a != b implies t[a] != t[b] by {
        if a == s.len() {
            assert(s[b] == t[b]);
        } else if b == s.len() {
            assert(s[a] == t[a]);
        }
    }
}

proof fn lemma_reached_in_universe_any(v: Seq<(ContractInfo, DualCompiledContract)>, root: Seq<Seq<u8>>, x: Seq<u8>)
    requires
        reachable(v, root, x),
    ensures
        (root + all_deps(v)).to_set().contains(x),
{
    let n = choose|n: nat| #[trigger] reached(v, root, n, x);
    lemma_reached_in_universe(v, root, n, x);
}

proof fn lemma_visited_in_universe(v: Seq<(ContractInfo, DualCompiledContract)>, root: Seq<Seq<u8>>, vis: Seq<Seq<u8>>, u: Set<Seq<u8>>)
    requires
        u == (root + all_deps(v)).to_set(),
        u.finite(),
        vis.no_duplicates(),
        forall|x: Seq<u8>| #[trigger] vis.contains(x) ==> reachable(v, root, x),
    ensures
        vis.len() <= u.len(),
{
    assert forall|x: Seq<u8>| vis.to_set().contains(x) implies u.contains(x) by {
        lemma_reached_in_universe_any(v, root, x);
    }
    vstd::set_lib::lemma_len_subset(vis.to_set(), u);
    vis.unique_seq_to_set();
}

proof fn lemma_dep_reachable(v: Seq<(ContractInfo, DualCompiledContract)>, root: Seq<Seq<u8>>, y: Seq<u8>, x: Seq<u8>)
    requires
        reachable(v, root, y),
        next_deps(v, y).contains(x),
    ensures
        reachable(v, root, x),
{
    let n = choose|n: nat| #[trigger] reached(v, root, n, y);
    assert(reached(v, root, n + 1, x));
}

/// After visiting the new dependency `d` popped from `q0` at `head - 1` and
/// queueing what it leads to (`q1` extends `q0`), the search state holds.
proof fn lemma_step_state(v: Seq<(ContractInfo, DualCompiledContract)>, root: Seq<Seq<u8>>, vis0: Seq<Seq<u8>>, q0: Seq<Seq<u8>>, head: int, d: Seq<u8>, q1: Seq<Seq<u8>>)
    requires
        search_state(v, root, vis0, q0, head - 1),
        1 <= head <= q0.len(),
        q0[head - 1] == d,
        !vis0.contains(d),
        head <= q1.len(),
        forall|k: int| 0 <= k < q1.len() ==> reachable(v, root, #[trigger] q1[k]),
        forall|x: Seq<u8>| #[trigger] q0.skip(head).contains(x) ==> q1.skip(head).contains(x),
        forall|z: Seq<u8>| #[trigger] next_deps(v, d).contains(z) ==> vis0.push(d).contains(z) || q1.skip(head).contains(z),
    ensures
        search_state(v, root, vis0.push(d), q1, head),
{
    let vis1 = vis0.push(d);
    let qa = q0.skip(head - 1);
    let qb = q0.skip(head);
    lemma_push_no_dup(vis0, d);
    assert(reachable(v, root, d));
    lemma_push_reachable(v, root, vis0, d);
    assert forall|x: Seq<u8>| #[trigger] vis0.contains(x) implies vis1.contains(x) by {
        let t = choose|t: int| 0 <= t < vis0.len() && vis0[t] == x;
        assert(vis1[t] == x);
    }
    assert(vis1[vis0.len() as int] == d);
    assert forall|x: Seq<u8>| #[trigger] qa.contains(x) && x != d implies qb.contains(x) by {
        let t = choose|t: int| 0 <= t < qa.len() && qa[t] == x;
        assert(t != 0);
        assert(qb[t - 1] == x);
    }
    assert forall|r: Seq<u8>| #[trigger] root.contains(r) implies vis1.contains(r) || q1.skip(head).contains(r) by {
        if r != d && !vis0.contains(r) {
            assert(qa.contains(r));
            assert(qb.contains(r));
        }
    }
    assert forall|y: Seq<u8>, z: Seq<u8>| vis1.contains(y) && #[trigger] next_deps(v, y).contains(z) implies vis1.contains(z) || q1.skip(head).contains(z) by {
        if y != d {
            assert(vis0.contains(y)) by {
                let t = choose|t: int| 0 <= t < vis1.len() && vis1[t] == y;
                assert(vis0[t] == y);
            }
            if z != d && !vis0.contains(z) {
                assert(qa.contains(z));
                assert(qb.contains(z));
            }
        }
    }
}

/// Every factory dependency of the root is among the fetched ones, and so
/// is every dependency of the contract a fetched one leads to.
pub proof fn lemma_fetched_closed(v: Seq<(ContractInfo, DualCompiledContract)>, root: Seq<Seq<u8>>, x: Seq<u8>, y: Seq<u8>)
    ensures
        root.contains(x) ==> reachable(v, root, x),
        reachable(v, root, y) && next_deps(v, y).contains(x) ==> reachable(v, root, x),
{
    if root.contains(x) {
        assert(reached(v, root, 0, x));
    }
    if reachable(v, root, y) && next_deps(v, y).contains(x) {
        lemma_dep_reachable(v, root, y, x);
    }
}

} // verus!
