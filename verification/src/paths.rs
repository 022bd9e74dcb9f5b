//! Unix file paths held as strings: components, joining, prefixes and file names.

use crate::text::{
    chars_of, owned, push_chars, slice_chars, split_chars, split_on, string_from_chars,
    string_push, chars_eq, find_last, last_index_of, lemma_last_index_of, first_index_of,
    lemma_first_index_of, lemma_split_on_cons, lemma_split_on_single,
};
use vstd::prelude::*;

verus! {

/// A component of a path.
pub enum Component {
    /// The leading `/` of an absolute path.
    RootDir,
    /// A leading `.`.
    CurDir,
    /// `..`
    ParentDir,
    /// A file or directory name.
    Normal(Seq<char>),
}

/// A component of a path, as executed.
pub enum PathComponent {
    RootDir,
    CurDir,
    ParentDir,
    Normal(Vec<char>),
}

impl View for PathComponent {
    type V = Component;

    open spec fn view(&self) -> Component {
        match self {
            PathComponent::RootDir => Component::RootDir,
            PathComponent::CurDir => Component::CurDir,
            PathComponent::ParentDir => Component::ParentDir,
            PathComponent::Normal(v) => Component::Normal(v@),
        }
    }
}

/// The models of a sequence of components.
pub open spec fn component_views(v: Seq<PathComponent>) -> Seq<Component> {
    v.map_values(|c: PathComponent| c@)
}

/// `.`
pub open spec fn dot() -> Seq<char> {
    seq!['.']
}

/// `..`
pub open spec fn dot_dot() -> Seq<char> {
    seq!['.', '.']
}

/// The components named by the pieces between separators: empty pieces and `.`
/// are skipped, `..` is the parent directory.
pub open spec fn piece_components(pieces: Seq<Seq<char>>) -> Seq<Component>
    decreases pieces.len(),
{
    if pieces.len() == 0 {
        Seq::empty()
    } else {
        let p = pieces[0];
        let rest = piece_components(pieces.drop_first());
        if p.len() == 0 || p == dot() {
            rest
        } else if p == dot_dot() {
            seq![Component::ParentDir] + rest
        } else {
            seq![Component::Normal(p)] + rest
        }
    }
}

/// The components of a path: a root for a leading `/`, a current directory for
/// a leading `.` piece, then the named pieces.
pub open spec fn components(s: Seq<char>) -> Seq<Component> {
    let pieces = split_on(s, '/');
    if s.len() > 0 && s[0] == '/' {
        seq![Component::RootDir] + piece_components(pieces)
    } else if pieces[0] == dot() {
        seq![Component::CurDir] + piece_components(pieces.drop_first())
    } else {
        piece_components(pieces)
    }
}

/// The text of one component.
pub open spec fn component_text(c: Component) -> Seq<char> {
    match c {
        Component::RootDir => seq!['/'],
        Component::CurDir => dot(),
        Component::ParentDir => dot_dot(),
        Component::Normal(n) => n,
    }
}

/// The components after the first, each preceded by `/`.
pub open spec fn joined_tail(cs: Seq<Component>) -> Seq<char>
    decreases cs.len(),
{
    if cs.len() == 0 {
        Seq::empty()
    } else {
        seq!['/'] + component_text(cs[0]) + joined_tail(cs.drop_first())
    }
}

/// The path built from components, separated by `/` (a root adds no separator of its own).
pub open spec fn render_components(cs: Seq<Component>) -> Seq<char> {
    if cs.len() == 0 {
        Seq::empty()
    } else if cs[0] is RootDir {
        seq!['/'] + (if cs.len() > 1 {
            component_text(cs[1]) + joined_tail(cs.skip(2))
        } else {
            Seq::empty()
        })
    } else {
        component_text(cs[0]) + joined_tail(cs.drop_first())
    }
}

/// `base` joined with `p`: an absolute `p` replaces `base`; otherwise a `/` is
/// put between them unless `base` is empty or already ends with one.
pub open spec fn path_join(base: Seq<char>, p: Seq<char>) -> Seq<char> {
    if p.len() > 0 && p[0] == '/' {
        p
    } else if base.len() > 0 && base.last() != '/' {
        base + seq!['/'] + p
    } else {
        base + p
    }
}

/// The file name of a path: its last component when that is a name.
pub open spec fn file_name(s: Seq<char>) -> Option<Seq<char>> {
    let cs = components(s);
    if cs.len() > 0 && cs.last() is Normal {
        Some(cs.last()->Normal_0)
    } else {
        None
    }
}

/// The stem of a file name: the part before its last `.`, unless that `.` is
/// its first character or there is none.
pub open spec fn name_stem(n: Seq<char>) -> Seq<char> {
    match last_index_of(n, '.') {
        Some(i) => if i == 0 {
            n
        } else {
            n.subrange(0, i)
        },
        None => n,
    }
}

/// The stem of the file name of a path.
pub open spec fn file_stem(s: Seq<char>) -> Option<Seq<char>> {
    match file_name(s) {
        Some(n) => Some(name_stem(n)),
        None => None,
    }
}

/// Whether the components of `base` begin those of `p`.
pub open spec fn path_starts_with(p: Seq<char>, base: Seq<char>) -> bool {
    let cp = components(p);
    let cb = components(base);
    cb.len() <= cp.len() && cp.subrange(0, cb.len() as int) == cb
}

/// Whether a piece between separators names no component: it is empty or `.`.
pub open spec fn is_skip_piece(s: Seq<char>) -> bool {
    s.len() == 0 || s == dot()
}

/// The pieces without the leading ones that name no component.
pub open spec fn trim_front_pieces(q: Seq<Seq<char>>) -> Seq<Seq<char>>
    decreases q.len(),
{
    if q.len() > 0 && is_skip_piece(q[0]) {
        trim_front_pieces(q.drop_first())
    } else {
        q
    }
}

/// The pieces without the trailing ones that name no component.
pub open spec fn trim_back_pieces(q: Seq<Seq<char>>) -> Seq<Seq<char>>
    decreases q.len(),
{
    if q.len() > 0 && is_skip_piece(q.last()) {
        trim_back_pieces(q.drop_last())
    } else {
        q
    }
}

/// Pieces joined with `/`.
pub open spec fn join_pieces(q: Seq<Seq<char>>) -> Seq<char>
    decreases q.len(),
{
    if q.len() == 0 {
        Seq::empty()
    } else if q.len() == 1 {
        q[0]
    } else {
        join_pieces(q.drop_last()) + seq!['/'] + q.last()
    }
}

/// The index of the piece after the one that names the `k`-th component from
/// piece `from` on.
pub open spec fn cut_after(pieces: Seq<Seq<char>>, from: int, k: nat) -> int
    decreases pieces.len() - from,
{
    if k == 0 || from < 0 || from >= pieces.len() {
        from
    } else if is_skip_piece(pieces[from]) {
        cut_after(pieces, from + 1, k)
    } else {
        cut_after(pieces, from + 1, (k - 1) as nat)
    }
}

/// Whether a path begins with a root.
pub open spec fn has_root(s: Seq<char>) -> bool {
    s.len() > 0 && s[0] == '/'
}

/// Whether a relative path begins with a `.` piece.
pub open spec fn has_cur_dir(s: Seq<char>) -> bool {
    !has_root(s) && split_on(s, '/')[0] == dot()
}

/// The text of `p` after its first `n` components, as `Path::strip_prefix`
/// leaves it: the rest of the text from the piece after the `n`-th component
/// on, without leading and trailing pieces that name no component. With no
/// component taken the text keeps its beginning and loses only such trailing
/// pieces.
pub open spec fn text_after_components(p: Seq<char>, n: nat) -> Seq<char> {
    let pieces = split_on(p, '/');
    let head = has_root(p) || has_cur_dir(p);
    let b: int = if head { 1 } else { 0 };
    if n == 0 {
        let rest = trim_back_pieces(pieces.skip(b));
        if has_root(p) {
            seq!['/'] + join_pieces(rest)
        } else if has_cur_dir(p) {
            if rest.len() == 0 {
                dot()
            } else {
                dot() + seq!['/'] + join_pieces(rest)
            }
        } else {
            join_pieces(rest)
        }
    } else {
        let t = if head { cut_after(pieces, 1, (n - 1) as nat) } else { cut_after(pieces, 0, n) };
        join_pieces(trim_back_pieces(trim_front_pieces(pieces.skip(t))))
    }
}

/// `p` without the components of `base`, when they begin it.
pub open spec fn strip_prefix(p: Seq<char>, base: Seq<char>) -> Option<Seq<char>> {
    if path_starts_with(p, base) {
        Some(text_after_components(p, components(base).len()))
    } else {
        None
    }
}

fn copy_component(c: &PathComponent) -> (r: PathComponent)
    ensures
        r@ == c@,
{
    match c {
        PathComponent::RootDir => PathComponent::RootDir,
        PathComponent::CurDir => PathComponent::CurDir,
        PathComponent::ParentDir => PathComponent::ParentDir,
        PathComponent::Normal(n) => {
            assert(n@.subrange(0, n@.len() as int) =~= n@);
            PathComponent::Normal(slice_chars(n.as_slice(), 0, n.len()))
        },
    }
}

fn piece_components_exec(pieces: &Vec<Vec<char>>, from: usize) -> (r: Vec<PathComponent>)
    requires
        from <= pieces@.len(),
    ensures
        component_views(r@) == piece_components(
            Seq::new((pieces@.len() - from) as nat, |k: int| pieces@[from + k]@),
        ),
    decreases pieces@.len() - from,
{
    let ghost ps = Seq::new((pieces@.len() - from) as nat, |k: int| pieces@[from + k]@);
    if from == pieces.len() {
        let r: Vec<PathComponent> = Vec::new();
        assert(component_views(r@) =~= Seq::<Component>::empty());
        return r;
    }
    let rest = piece_components_exec(pieces, from + 1);
    assert(ps.drop_first() =~= Seq::new((pieces@.len() - (from + 1)) as nat, |k: int| pieces@[from + 1 + k]@));
    let p = &pieces[from];
    assert(ps[0] == p@);
    let dot_v: [char; 1] = ['.'];
    let dot_dot_v: [char; 2] = ['.', '.'];
    assert(dot_v@ =~= dot());
    assert(dot_dot_v@ =~= dot_dot());
    if p.len() == 0 || chars_eq(p.as_slice(), &dot_v) {
        return rest;
    }
    let head = if chars_eq(p.as_slice(), &dot_dot_v) {
        PathComponent::ParentDir
    } else {
        PathComponent::Normal(slice_chars(p.as_slice(), 0, p.len()))
    };
    let mut r: Vec<PathComponent> = Vec::new();
    r.push(head);
    let mut i: usize = 0;
    while i < rest.len()
        invariant
            i <= rest@.len(),
            r@.len() == i + 1,
            r@[0]@ == head@,
            forall|k: int| 1 <= k <= i ==> #[trigger] r@[k]@ == rest@[k - 1]@,
        decreases rest@.len() - i,
    {
        let c = copy_component(&rest[i]);
        r.push(c);
        i = i + 1;
    }
    assert(p@.subrange(0, p@.len() as int) =~= p@);
    assert(component_views(r@) =~= seq![head@] + component_views(rest@));
    r
}

/// The components of a path.
pub fn path_components(s: &str) -> (r: Vec<PathComponent>)
    ensures
        component_views(r@) == components(s@),
{
    let v = chars_of(s);
    let pieces = split_chars(v.as_slice(), '/');
    let ghost ps = split_on(v@, '/');
    assert(Seq::new((pieces@.len() - 0) as nat, |k: int| pieces@[0 + k]@) =~= ps);
    let dot_v: [char; 1] = ['.'];
    assert(dot_v@ =~= dot());
    proof {
        crate::text::lemma_split_on_len(v@, '/');
    }
    if v.len() > 0 && v[0] == '/' {
        let body = piece_components_exec(&pieces, 0);
        let mut r: Vec<PathComponent> = Vec::new();
        r.push(PathComponent::RootDir);
        let mut body = body;
        let ghost bv = component_views(body@);
        r.append(&mut body);
        assert(component_views(r@) =~= seq![Component::RootDir] + bv);
        r
    } else if chars_eq(pieces[0].as_slice(), &dot_v) {
        let body = piece_components_exec(&pieces, 1);
        assert(Seq::new((pieces@.len() - 1) as nat, |k: int| pieces@[1 + k]@) =~= ps.drop_first());
        let mut r: Vec<PathComponent> = Vec::new();
        r.push(PathComponent::CurDir);
        let mut body = body;
        let ghost bv = component_views(body@);
        r.append(&mut body);
        assert(component_views(r@) =~= seq![Component::CurDir] + bv);
        r
    } else {
        piece_components_exec(&pieces, 0)
    }
}

/// Joins `p` onto `base`, as `Path::join` does on Unix.
pub fn join(base: &str, p: &str) -> (r: String)
    ensures
        r@ == path_join(base@, p@),
{
    let pv = chars_of(p);
    let bv = chars_of(base);
    if pv.len() > 0 && pv[0] == '/' {
        return owned(p);
    }
    let mut r = owned(base);
    if bv.len() > 0 && bv[bv.len() - 1] != '/' {
        string_push(&mut r, '/');
    }
    push_chars(&mut r, pv.as_slice());
    r
}

fn push_component(out: &mut String, c: &PathComponent)
    ensures
        final(out)@ == old(out)@ + component_text(c@),
{
    match c {
        PathComponent::RootDir => string_push(out, '/'),
        PathComponent::CurDir => {
            string_push(out, '.');
            assert(final(out)@ =~= old(out)@ + dot());
        },
        PathComponent::ParentDir => {
            string_push(out, '.');
            string_push(out, '.');
            assert(final(out)@ =~= old(out)@ + dot_dot());
        },
        PathComponent::Normal(n) => push_chars(out, n.as_slice()),
    }
}

/// Renders components separated by `/`.
pub fn render(cs: &[PathComponent]) -> (r: String)
    ensures
        r@ == render_components(component_views(cs@)),
{
    let ghost cv = component_views(cs@);
    let mut r = String::new();
    if cs.len() == 0 {
        assert(cv.len() == 0);
        return r;
    }
    let mut i: usize;
    if matches!(cs[0], PathComponent::RootDir) {
        string_push(&mut r, '/');
        if cs.len() == 1 {
            assert(r@ =~= render_components(cv));
            return r;
        }
        push_component(&mut r, &cs[1]);
        i = 2;
    } else {
        push_component(&mut r, &cs[0]);
        i = 1;
    }
    let ghost prefix = r@;
    assert(cv.skip(i as int).len() == cv.len() - i);
    proof {
        if i == 2 {
            assert(render_components(cv) == prefix + joined_tail(cv.skip(2)));
        } else {
            assert(cv.drop_first() =~= cv.skip(1));
            assert(render_components(cv) == prefix + joined_tail(cv.skip(1)));
        }
    }
    while i < cs.len()
        invariant
            1 <= i <= cs@.len(),
            cv == component_views(cs@),
            render_components(cv) == r@ + joined_tail(cv.skip(i as int)),
        decreases cs@.len() - i,
    {
        let ghost before = r@;
        string_push(&mut r, '/');
        push_component(&mut r, &cs[i]);
        assert(cv.skip(i as int).drop_first() =~= cv.skip(i + 1));
        assert(cv.skip(i as int)[0] == cs@[i as int]@);
        assert(r@ =~= before + (seq!['/'] + component_text(cs@[i as int]@)));
        assert(before + joined_tail(cv.skip(i as int)) =~= r@ + joined_tail(cv.skip(i + 1)));
        i = i + 1;
    }
    assert(cv.skip(i as int) =~= Seq::<Component>::empty());
    assert(r@ + Seq::<char>::empty() =~= r@);
    r
}

/// The file name of a path, as `Path::file_name` gives it.
pub fn path_file_name(s: &str) -> (r: Option<String>)
    ensures
        match file_name(s@) {
            Some(n) => r matches Some(x) && x@ == n,
            None => r is None,
        },
{
    let cs = path_components(s);
    let n = cs.len();
    if n == 0 {
        return None;
    }
    assert(component_views(cs@).last() == cs@[n - 1]@);
    match &cs[n - 1] {
        PathComponent::Normal(v) => Some(string_from_chars(v.as_slice())),
        _ => None,
    }
}

/// The extension of a file name: the part after its last `.`, unless that `.`
/// is its first character or there is none.
pub open spec fn name_extension(n: Seq<char>) -> Option<Seq<char>> {
    match last_index_of(n, '.') {
        Some(i) => if i == 0 {
            None
        } else {
            Some(n.subrange(i + 1, n.len() as int))
        },
        None => None,
    }
}

/// The extension of the file name of a path.
pub open spec fn file_extension(s: Seq<char>) -> Option<Seq<char>> {
    match file_name(s) {
        Some(n) => name_extension(n),
        None => None,
    }
}

/// The extension of the file name of a path, as `Path::extension` gives it.
pub fn path_extension(s: &str) -> (r: Option<String>)
    ensures
        match file_extension(s@) {
            Some(e) => r matches Some(x) && x@ == e,
            None => r is None,
        },
{
    match path_file_name(s) {
        Some(name) => {
            let v = chars_of(name.as_str());
            assert(file_name(s@) == Some(v@));
            assert(file_extension(s@) == name_extension(v@));
            proof {
                lemma_last_index_of(v@, '.');
            }
            match find_last(v.as_slice(), '.') {
                Some(i) => if i == 0 {
                    None
                } else {
                    let n = v.len();
                    assert(i < n);
                    let e = slice_chars(v.as_slice(), i + 1, n);
                    assert(e@ == v@.subrange(i + 1, v@.len() as int));
                    assert(name_extension(v@) == Some(e@));
                    Some(string_from_chars(e.as_slice()))
                },
                None => None,
            }
        },
        None => None,
    }
}

/// The stem of a file name.
pub fn stem_of(n: &str) -> (r: String)
    ensures
        r@ == name_stem(n@),
{
    let v = chars_of(n);
    proof {
        lemma_last_index_of(v@, '.');
    }
    match find_last(v.as_slice(), '.') {
        Some(i) => if i == 0 {
            string_from_chars(v.as_slice())
        } else {
            string_from_chars(slice_chars(v.as_slice(), 0, i).as_slice())
        },
        None => string_from_chars(v.as_slice()),
    }
}

/// The stem of the file name of a path, as `Path::file_stem` gives it.
pub fn path_file_stem(s: &str) -> (r: Option<String>)
    ensures
        match file_stem(s@) {
            Some(n) => r matches Some(x) && x@ == n,
            None => r is None,
        },
{
    match path_file_name(s) {
        Some(n) => Some(stem_of(n.as_str())),
        None => None,
    }
}

fn component_eq(a: &PathComponent, b: &PathComponent) -> (r: bool)
    ensures
        r == (a@ == b@),
{
    match (a, b) {
        (PathComponent::RootDir, PathComponent::RootDir) => true,
        (PathComponent::CurDir, PathComponent::CurDir) => true,
        (PathComponent::ParentDir, PathComponent::ParentDir) => true,
        (PathComponent::Normal(x), PathComponent::Normal(y)) => chars_eq(x.as_slice(), y.as_slice()),
        _ => false,
    }
}

fn components_prefix(cp: &Vec<PathComponent>, cb: &Vec<PathComponent>) -> (r: bool)
    ensures
        r == (cb@.len() <= cp@.len() && component_views(cp@).subrange(0, cb@.len() as int)
            == component_views(cb@)),
{
    if cb.len() > cp.len() {
        return false;
    }
    let mut i: usize = 0;
    while i < cb.len()
        invariant
            cb@.len() <= cp@.len(),
            i <= cb@.len(),
            forall|k: int| 0 <= k < i ==> #[trigger] cp@[k]@ == cb@[k]@,
        decreases cb@.len() - i,
    {
        if !component_eq(&cp[i], &cb[i]) {
            assert(component_views(cp@).subrange(0, cb@.len() as int)[i as int] != component_views(cb@)[i as int]);
            return false;
        }
        i = i + 1;
    }
    assert(component_views(cp@).subrange(0, cb@.len() as int) =~= component_views(cb@));
    true
}

/// Whether the components of `base` begin those of `p`, as `Path::starts_with` tells.
pub fn starts_with(p: &str, base: &str) -> (r: bool)
    ensures
        r == path_starts_with(p@, base@),
{
    let cp = path_components(p);
    let cb = path_components(base);
    components_prefix(&cp, &cb)
}

fn is_skip_exec(v: &Vec<char>) -> (r: bool)
    ensures
        r == is_skip_piece(v@),
{
    if v.len() == 0 {
        true
    } else if v.len() == 1 && v[0] == '.' {
        assert(v@ =~= dot());
        true
    } else {
        assert(v@.len() != 1 ==> v@ != dot());
        false
    }
}

/// The pieces `pieces[lo..hi]` joined with `/`.
fn join_range(pieces: &Vec<Vec<char>>, lo: usize, hi: usize) -> (r: String)
    requires
        lo <= hi <= pieces@.len(),
    ensures
        r@ == join_pieces(Seq::new((hi - lo) as nat, |k: int| pieces@[lo + k]@)),
{
    let ghost pv = Seq::new(pieces@.len(), |k: int| pieces@[k]@);
    let mut r = String::new();
    let mut k: usize = lo;
    while k < hi
        invariant
            lo <= k <= hi <= pieces@.len(),
            pv == Seq::new(pieces@.len(), |k: int| pieces@[k]@),
            r@ == join_pieces(pv.subrange(lo as int, k as int)),
        decreases hi - k,
    {
        let ghost before = pv.subrange(lo as int, k as int);
        if k > lo {
            crate::text::string_push(&mut r, '/');
        }
        push_chars(&mut r, pieces[k].as_slice());
        k = k + 1;
        proof {
            let after = pv.subrange(lo as int, k as int);
            assert(after.drop_last() =~= before);
            assert(after.last() == pieces@[k - 1]@);
        }
    }
    assert(pv.subrange(lo as int, hi as int) =~= Seq::new((hi - lo) as nat, |k: int| pieces@[lo + k]@));
    r
}

proof fn lemma_trim_front_step(q: Seq<Seq<char>>)
    requires
        q.len() > 0,
        is_skip_piece(q[0]),
    ensures
        trim_front_pieces(q) == trim_front_pieces(q.drop_first()),
{
}

/// The text of `p` after its first `n` components.
fn text_after(p: &str, n: usize) -> (r: String)
    ensures
        r@ == text_after_components(p@, n as nat),
{
    let v = chars_of(p);
    let pieces = split_chars(v.as_slice(), '/');
    let ghost ps = split_on(p@, '/');
    let ghost pv = Seq::new(pieces@.len(), |k: int| pieces@[k]@);
    assert(pv =~= ps);
    proof {
        crate::text::lemma_split_on_len(v@, '/');
    }
    let dot_v: [char; 1] = ['.'];
    assert(dot_v@ =~= dot());
    let root = v.len() > 0 && v[0] == '/';
    let cur = !root && chars_eq(pieces[0].as_slice(), &dot_v);
    let b: usize = if root || cur { 1 } else { 0 };
    if n == 0 {
        // keep the beginning; drop only trailing pieces that name no component
        let mut j: usize = pieces.len();
        if j < b {
            j = b;
        }
        while j > b && is_skip_exec(&pieces[j - 1])
            invariant
                b <= j <= pv.len(),
                pv == Seq::new(pieces@.len(), |k: int| pieces@[k]@),
                trim_back_pieces(pv.skip(b as int)) == trim_back_pieces(pv.subrange(b as int, j as int)),
            decreases j,
        {
            proof {
                let q = pv.subrange(b as int, j as int);
                assert(q.drop_last() =~= pv.subrange(b as int, j - 1));
            }
            j = j - 1;
        }
        proof {
            assert(pv.skip(b as int) =~= pv.subrange(b as int, pv.len() as int));
            let q = pv.subrange(b as int, j as int);
            if j > b {
                assert(q.last() == pv[j - 1]);
            }
            assert(trim_back_pieces(q) == q);
            assert(q =~= Seq::new((j - b) as nat, |k: int| pieces@[b + k]@));
        }
        let rest = join_range(&pieces, b, j);
        if root {
            let mut r = String::new();
            crate::text::string_push(&mut r, '/');
            crate::text::push_str(&mut r, rest.as_str());
            assert(r@ =~= seq!['/'] + rest@);
            r
        } else if cur {
            let mut r = String::new();
            crate::text::string_push(&mut r, '.');
            if j > b {
                crate::text::string_push(&mut r, '/');
                crate::text::push_str(&mut r, rest.as_str());
                assert(r@ =~= dot() + seq!['/'] + rest@);
            } else {
                assert(r@ =~= dot());
            }
            r
        } else {
            rest
        }
    } else {
        let mut i: usize = b;
        let mut k: usize = if root || cur { n - 1 } else { n };
        let ghost goal = if root || cur { cut_after(pv, 1, (n - 1) as nat) } else { cut_after(pv, 0, n as nat) };
        while k > 0 && i < pieces.len()
            invariant
                b <= i <= pv.len(),
                pv == Seq::new(pieces@.len(), |k: int| pieces@[k]@),
                cut_after(pv, i as int, k as nat) == goal,
            decreases pv.len() - i,
        {
            if !is_skip_exec(&pieces[i]) {
                k = k - 1;
            }
            i = i + 1;
        }
        assert(cut_after(pv, i as int, k as nat) == i);
        // drop leading pieces that name no component
        let mut lo: usize = i;
        while lo < pieces.len() && is_skip_exec(&pieces[lo])
            invariant
                i <= lo <= pv.len(),
                pv == Seq::new(pieces@.len(), |k: int| pieces@[k]@),
                trim_front_pieces(pv.skip(i as int)) == trim_front_pieces(pv.skip(lo as int)),
            decreases pv.len() - lo,
        {
            proof {
                assert(pv.skip(lo as int).drop_first() =~= pv.skip(lo + 1));
                lemma_trim_front_step(pv.skip(lo as int));
            }
            lo = lo + 1;
        }
        proof {
            if lo < pv.len() {
                assert(pv.skip(lo as int)[0] == pv[lo as int]);
            }
            assert(trim_front_pieces(pv.skip(lo as int)) == pv.skip(lo as int));
        }
        // drop trailing pieces that name no component
        let mut hi: usize = pieces.len();
        while hi > lo && is_skip_exec(&pieces[hi - 1])
            invariant
                lo <= hi <= pv.len(),
                pv == Seq::new(pieces@.len(), |k: int| pieces@[k]@),
                trim_back_pieces(pv.skip(lo as int)) == trim_back_pieces(pv.subrange(lo as int, hi as int)),
            decreases hi,
        {
            proof {
                let q = pv.subrange(lo as int, hi as int);
                assert(q.drop_last() =~= pv.subrange(lo as int, hi - 1));
            }
            hi = hi - 1;
        }
        proof {
            assert(pv.skip(lo as int) =~= pv.subrange(lo as int, pv.len() as int));
            let q = pv.subrange(lo as int, hi as int);
            if hi > lo {
                assert(q.last() == pv[hi - 1]);
            }
            assert(trim_back_pieces(q) == q);
            assert(q =~= Seq::new((hi - lo) as nat, |k: int| pieces@[lo + k]@));
        }
        join_range(&pieces, lo, hi)
    }
}

/// `p` without the components of `base`, when they begin it, as
/// `Path::strip_prefix` gives it.
pub fn path_strip_prefix(p: &str, base: &str) -> (r: Option<String>)
    ensures
        match strip_prefix(p@, base@) {
            Some(x) => r matches Some(y) && y@ == x,
            None => r is None,
        },
{
    let cp = path_components(p);
    let cb = path_components(base);
    if !components_prefix(&cp, &cb) {
        return None;
    }
    Some(text_after(p, cb.len()))
}


/// The length of the common prefix of `p` and `b` from position `i` on.
pub open spec fn common_prefix_len(p: Seq<Component>, b: Seq<Component>, i: int) -> int
    decreases p.len() - i,
{
    if 0 <= i < p.len() && i < b.len() && p[i] == b[i] {
        common_prefix_len(p, b, i + 1)
    } else {
        i
    }
}

/// The components of `p` relative to `b`: `..` for each component of `b` after
/// the common prefix, then the rest of `p`; nothing when `p` is a prefix of `b`.
/// An absolute `p` that shares nothing with `b` stays as it is.
pub open spec fn rebased(p: Seq<Component>, b: Seq<Component>) -> Seq<Component> {
    let i = common_prefix_len(p, b, 0);
    if i >= p.len() {
        Seq::empty()
    } else if i == 0 && p[0] is RootDir {
        p
    } else {
        Seq::new(
            (if i < b.len() {
                b.len() - i
            } else {
                0
            }) as nat,
            |k: int| Component::ParentDir,
        ) + p.skip(i)
    }
}

/// `path` made relative to `base`, with `/` separators.
pub fn rebase_path(base: &str, path: &str) -> (r: String)
    ensures
        r@ == render_components(rebased(components(path@), components(base@))),
{
    let b = path_components(base);
    let p = path_components(path);
    let ghost pv = component_views(p@);
    let ghost bv = component_views(b@);
    let mut i: usize = 0;
    while i < p.len() && i < b.len() && component_eq(&p[i], &b[i])
        invariant
            i <= p@.len(),
            pv == component_views(p@),
            bv == component_views(b@),
            common_prefix_len(pv, bv, 0) == common_prefix_len(pv, bv, i as int),
        decreases p@.len() - i,
    {
        i = i + 1;
    }
    assert(common_prefix_len(pv, bv, 0) == i);
    let mut out: Vec<PathComponent> = Vec::new();
    if i == p.len() {
        assert(component_views(out@) =~= Seq::<Component>::empty());
        return render(out.as_slice());
    }
    let ghost parents: nat = if i == 0 && pv[0] is RootDir {
        0
    } else if i < b.len() {
        (b.len() - i) as nat
    } else {
        0
    };
    if !(i == 0 && matches!(p[0], PathComponent::RootDir)) && i < b.len() {
        let mut k: usize = 0;
        while k < b.len() - i
            invariant
                i < b@.len(),
                k <= b@.len() - i,
                out@.len() == k,
                forall|j: int| 0 <= j < k ==> out@[j]@ == Component::ParentDir,
            decreases b@.len() - i - k,
        {
            out.push(PathComponent::ParentDir);
            k = k + 1;
        }
    }
    assert(out@.len() == parents);
    let ghost start = out@.len();
    let mut j: usize = i;
    while j < p.len()
        invariant
            i <= j <= p@.len(),
            out@.len() == start + (j - i),
            forall|k: int| 0 <= k < start ==> out@[k]@ == Component::ParentDir,
            forall|k: int| start <= k < out@.len() ==> out@[k]@ == pv[k - start + i],
            pv == component_views(p@),
        decreases p@.len() - j,
    {
        let c = copy_component(&p[j]);
        out.push(c);
        j = j + 1;
    }
    proof {
        let target = rebased(pv, bv);
        if i == 0 && pv[0] is RootDir {
            assert(pv.skip(0) =~= pv);
        }
        assert(component_views(out@) =~= target);
    }
    render(out.as_slice())
}

/// A path without `base` in front, or the path itself where `base` does not
/// begin it.
pub open spec fn strip_prefix_or_keep(p: Seq<char>, base: Seq<char>) -> Seq<char> {
    match strip_prefix(p, base) {
        Some(x) => x,
        None => p,
    }
}

/// The path without `base` in front, or the path itself where `base` does
/// not begin it.
pub fn strip_prefix_owned(p: String, base: &str) -> (r: String)
    ensures
        r@ == strip_prefix_or_keep(p@, base@),
{
    match path_strip_prefix(p.as_str(), base) {
        Some(x) => x,
        None => p,
    }
}

/// `p` without `base` in front where `base` begins it, else `p`: the same as
/// [`strip_prefix_or_keep`], with its definition kept inside this module.
pub closed spec fn stripped(p: Seq<char>, base: Seq<char>) -> Seq<char> {
    strip_prefix_or_keep(p, base)
}

/// The path without `base` in front, or the path itself where `base` does
/// not begin it, stated over [`stripped`].
pub fn strip_prefix_or_same(p: String, base: &str) -> (r: String)
    ensures
        r@ == stripped(p@, base@),
{
    strip_prefix_owned(p, base)
}

/// Entries keyed by path, each key without `base` in front where `base`
/// begins it; values and order unchanged.
pub fn strip_prefix_keys<T>(entries: Vec<(String, T)>, base: &str) -> (r: Vec<(String, T)>)
    ensures
        r@.len() == entries@.len(),
        forall|i: int| 0 <= i < r@.len() ==> (#[trigger] r@[i]).0@ == strip_prefix_or_keep(entries@[i].0@, base@) && r@[i].1 == entries@[i].1,
{
    let ghost all = entries@;
    let mut rest = entries;
    let mut out: Vec<(String, T)> = Vec::new();
    assert(all.skip(0) =~= all);
    while rest.len() > 0
        invariant
            rest@.len() <= all.len(),
            rest@ == all.skip(all.len() - rest@.len()),
            out@.len() == all.len() - rest@.len(),
            forall|i: int| 0 <= i < out@.len() ==> (#[trigger] out@[i]).0@ == strip_prefix_or_keep(all[i].0@, base@) && out@[i].1 == all[i].1,
        decreases rest@.len(),
    {
        let ghost done = all.len() - rest@.len();
        let (k, v) = rest.remove(0);
        assert(rest@ =~= all.skip(done + 1));
        out.push((strip_prefix_owned(k, base), v));
    }
    out
}

/// Splitting `x/a`, where `a` holds no separator, gives the pieces of `x`
/// and then `a`.
proof fn lemma_split_on_snoc(x: Seq<char>, a: Seq<char>)
    requires
        !a.contains('/'),
    ensures
        split_on(x + seq!['/'] + a, '/') == split_on(x, '/').push(a),
    decreases x.len(),
{
    lemma_first_index_of(x, '/');
    match first_index_of(x, '/') {
        None => {
            assert(!x.contains('/'));
            lemma_split_on_cons(x, a, '/');
            lemma_split_on_single(a, '/');
            lemma_split_on_single(x, '/');
            assert(seq![x] + seq![a] =~= seq![x].push(a));
        },
        Some(i) => {
            let x1 = x.subrange(0, i);
            let x2 = x.subrange(i + 1, x.len() as int);
            assert(!x1.contains('/')) by {
                if x1.contains('/') {
                    let k = choose|k: int| 0 <= k < x1.len() && x1[k] == '/';
                    assert(x[k] == '/');
                }
            }
            assert(x =~= x1 + seq!['/'] + x2);
            assert(x + seq!['/'] + a =~= x1 + seq!['/'] + (x2 + seq!['/'] + a));
            lemma_split_on_cons(x1, x2 + seq!['/'] + a, '/');
            lemma_split_on_cons(x1, x2, '/');
            lemma_split_on_snoc(x2, a);
            assert(seq![x1] + split_on(x2, '/').push(a) =~= (seq![x1] + split_on(x2, '/')).push(a));
        },
    }
}

/// A piece that names a file adds that name as the last component.
proof fn lemma_piece_components_snoc(ps: Seq<Seq<char>>, a: Seq<char>)
    requires
        a.len() > 0,
        a != dot(),
        a != dot_dot(),
    ensures
        piece_components(ps.push(a)) == piece_components(ps).push(Component::Normal(a)),
    decreases ps.len(),
{
    if ps.len() == 0 {
        assert(ps.push(a) =~= seq![a]);
        assert(seq![a].drop_first() =~= Seq::<Seq<char>>::empty());
        assert(piece_components(Seq::<Seq<char>>::empty()) == Seq::<Component>::empty());
        assert(piece_components(seq![a]) == seq![Component::Normal(a)] + piece_components(Seq::<Seq<char>>::empty()));
        assert(seq![Component::Normal(a)] + Seq::<Component>::empty() =~= Seq::<Component>::empty().push(Component::Normal(a)));
    } else {
        assert(ps.push(a).drop_first() =~= ps.drop_first().push(a));
        assert(ps.push(a)[0] == ps[0]);
        assert(ps.push(a).len() > 0);
        lemma_piece_components_snoc(ps.drop_first(), a);
        let p = ps[0];
        let rest = piece_components(ps.drop_first());
        if p.len() == 0 || p == dot() {
        } else if p == dot_dot() {
            assert(seq![Component::ParentDir] + rest.push(Component::Normal(a)) =~= (seq![Component::ParentDir] + rest).push(Component::Normal(a)));
        } else {
            assert(seq![Component::Normal(p)] + rest.push(Component::Normal(a)) =~= (seq![Component::Normal(p)] + rest).push(Component::Normal(a)));
        }
    }
}

/// The file name of `base` joined with a name that holds no separator and is
/// neither `.` nor `..` is that name.
pub proof fn lemma_file_name_of_join(base: Seq<char>, a: Seq<char>)
    requires
        a.len() > 0,
        !a.contains('/'),
        a != dot(),
        a != dot_dot(),
    ensures
        file_name(path_join(base, a)) == Some(a),
{
    assert(a[0] != '/') by {
        if a[0] == '/' {
            assert(a.contains('/'));
        }
    }
    if base.len() > 0 && base.last() != '/' {
        lemma_components_end_with(base, a);
    } else if base.len() == 0 {
        assert(path_join(base, a) =~= a);
        lemma_split_on_single(a, '/');
        lemma_piece_components_snoc(Seq::<Seq<char>>::empty(), a);
        assert(Seq::<Seq<char>>::empty().push(a) =~= seq![a]);
        assert(split_on(a, '/')[0] == a);
    } else {
        let x = base.drop_last();
        assert(base =~= x + seq!['/']);
        assert(path_join(base, a) == base + a);
        assert(base + a =~= x + seq!['/'] + a);
        lemma_components_end_with(x, a);
    }
}

/// The components of `x/a` end with `a`, where `a` names a file.
proof fn lemma_components_end_with(x: Seq<char>, a: Seq<char>)
    requires
        a.len() > 0,
        !a.contains('/'),
        a != dot(),
        a != dot_dot(),
    ensures
        file_name(x + seq!['/'] + a) == Some(a),
{
    let s = x + seq!['/'] + a;
    lemma_split_on_snoc(x, a);
    crate::text::lemma_split_on_len(x, '/');
    let ps = split_on(x, '/');
    lemma_piece_components_snoc(ps, a);
    lemma_piece_components_snoc(ps.drop_first(), a);
    assert(ps.push(a).drop_first() =~= ps.drop_first().push(a));
    assert(ps.push(a)[0] == ps[0]);
}

} // verus!
