//! Path components, ordering and the file-name parts used for classification.
//!
//! Paths are carried as strings with `/` separators. Their components and
//! ordering follow the component model of `std::path::Path` on Unix: a leading
//! `/` is the root, empty and `.` segments vanish (a leading `.` of a relative
//! path stays as the current directory), `..` is the parent directory, and
//! paths compare component by component.

use vstd::prelude::*;

use crate::chars::chars_of;

verus! {

/// Rank of the root component.
pub open spec fn root_rank() -> int { 1 }

/// Rank of a leading current-directory component.
pub open spec fn cur_rank() -> int { 2 }

/// Rank of a parent-directory component.
pub open spec fn parent_rank() -> int { 3 }

/// Rank of a named component.
pub open spec fn normal_rank() -> int { 4 }

/// A path component as (rank, name); the name is empty unless the rank is `normal_rank()`.
pub type ComponentView = (int, Seq<char>);

/// The component (if any) that one `/`-delimited segment contributes.
pub open spec fn segment_component(seg: Seq<char>, first: bool) -> Seq<ComponentView> {
    if seg.len() == 0 {
        Seq::empty()
    } else if seg == seq!['.'] {
        if first {
            seq![(cur_rank(), Seq::<char>::empty())]
        } else {
            Seq::empty()
        }
    } else if seg == seq!['.', '.'] {
        seq![(parent_rank(), Seq::<char>::empty())]
    } else {
        seq![(normal_rank(), seg)]
    }
}

/// Components found in the first `i` characters of `s`, the open segment, and its index.
pub open spec fn scan_components(s: Seq<char>, i: nat) -> (Seq<ComponentView>, Seq<char>, nat)
    decreases i,
{
    if i == 0 {
        let start = if s.len() > 0 && s[0] == '/' {
            seq![(root_rank(), Seq::<char>::empty())]
        } else {
            Seq::empty()
        };
        (start, Seq::empty(), 0)
    } else {
        let prev = scan_components(s, (i - 1) as nat);
        let c = s[i - 1];
        if c == '/' {
            (prev.0 + segment_component(prev.1, prev.2 == 0), Seq::empty(), prev.2 + 1)
        } else {
            (prev.0, prev.1.push(c), prev.2)
        }
    }
}

/// The components of a path.
pub open spec fn path_components(s: Seq<char>) -> Seq<ComponentView> {
    let st = scan_components(s, s.len());
    st.0 + segment_component(st.1, st.2 == 0)
}

/// Three-way lexicographic comparison of character sequences by code point.
pub open spec fn chars_order(a: Seq<char>, b: Seq<char>) -> int
    decreases a.len(),
{
    if a.len() == 0 {
        if b.len() == 0 { 0 } else { -1 }
    } else if b.len() == 0 {
        1
    } else if (a[0] as u32) < (b[0] as u32) {
        -1
    } else if (a[0] as u32) > (b[0] as u32) {
        1
    } else {
        chars_order(a.drop_first(), b.drop_first())
    }
}

/// Three-way comparison of two components.
pub open spec fn component_order(x: ComponentView, y: ComponentView) -> int {
    if x.0 < y.0 {
        -1
    } else if x.0 > y.0 {
        1
    } else {
        chars_order(x.1, y.1)
    }
}

/// Three-way lexicographic comparison of component sequences.
pub open spec fn components_order(a: Seq<ComponentView>, b: Seq<ComponentView>) -> int
    decreases a.len(),
{
    if a.len() == 0 {
        if b.len() == 0 { 0 } else { -1 }
    } else if b.len() == 0 {
        1
    } else if component_order(a[0], b[0]) != 0 {
        component_order(a[0], b[0])
    } else {
        components_order(a.drop_first(), b.drop_first())
    }
}

/// Three-way comparison of two paths (the ordering of `std::path::Path`).
pub open spec fn path_order(a: Seq<char>, b: Seq<char>) -> int {
    components_order(path_components(a), path_components(b))
}

/// The final component of a path when it is a name (`Path::file_name`).
pub open spec fn file_name(s: Seq<char>) -> Option<Seq<char>> {
    let c = path_components(s);
    if c.len() > 0 && c.last().0 == normal_rank() {
        Some(c.last().1)
    } else {
        None
    }
}

/// Index of the last occurrence of `c` in `s`, or -1.
pub open spec fn last_index_of(s: Seq<char>, c: char) -> int
    decreases s.len(),
{
    if s.len() == 0 {
        -1
    } else if s.last() == c {
        s.len() - 1
    } else {
        last_index_of(s.drop_last(), c)
    }
}

/// The extension of a file name: the text after its last dot, unless the name
/// has no dot or its only dot leads the name (`Path::extension`).
pub open spec fn name_extension(name: Seq<char>) -> Option<Seq<char>> {
    let i = last_index_of(name, '.');
    if i <= 0 {
        None
    } else {
        Some(name.skip(i + 1))
    }
}

/// The extension of a path's file name.
pub open spec fn path_extension(s: Seq<char>) -> Option<Seq<char>> {
    match file_name(s) {
        Some(name) => name_extension(name),
        None => None,
    }
}

/// Kind of a path component.
#[derive(Clone, Copy, PartialEq, Eq, Structural, Debug)]
pub enum ComponentKind {
    /// The root `/`.
    RootDir,
    /// A leading `.` of a relative path.
    CurDir,
    /// A `..` segment.
    ParentDir,
    /// A named segment.
    Normal,
}

/// Rank of a component kind in the component order.
pub open spec fn kind_rank(k: ComponentKind) -> int {
    match k {
        ComponentKind::RootDir => root_rank(),
        ComponentKind::CurDir => cur_rank(),
        ComponentKind::ParentDir => parent_rank(),
        ComponentKind::Normal => normal_rank(),
    }
}

/// One component of a path.
pub struct PathComponent {
    /// Kind of the component.
    pub kind: ComponentKind,
    /// Name of a `Normal` component; empty otherwise.
    pub name: Vec<char>,
}

impl PathComponent {
    /// The (rank, name) view of this component.
    pub open spec fn view_pair(&self) -> ComponentView {
        (kind_rank(self.kind), self.name@)
    }
}

/// The (rank, name) views of a sequence of components.
pub open spec fn components_view(v: Seq<PathComponent>) -> Seq<ComponentView> {
    v.map_values(|c: PathComponent| c.view_pair())
}

fn is_dot(seg: &Vec<char>) -> (r: bool)
    ensures
        r == (seg@ == seq!['.']),
{
    let r = seg.len() == 1 && seg[0] == '.';
    proof {
        if seg@ == seq!['.'] {
            assert(seg@[0] == '.');
        }
        if r {
            assert(seg@ =~= seq!['.']);
        }
    }
    r
}

fn is_dot_dot(seg: &Vec<char>) -> (r: bool)
    ensures
        r == (seg@ == seq!['.', '.']),
{
    let r = seg.len() == 2 && seg[0] == '.' && seg[1] == '.';
    proof {
        if seg@ == seq!['.', '.'] {
            assert(seg@[0] == '.' && seg@[1] == '.');
        }
        if r {
            assert(seg@ =~= seq!['.', '.']);
        }
    }
    r
}

fn push_segment(out: &mut Vec<PathComponent>, seg: Vec<char>, first: bool)
    ensures
        components_view(final(out)@) == components_view(old(out)@) + segment_component(seg@, first),
{
    let ghost before = components_view(out@);
    if seg.len() == 0 {
    } else if is_dot(&seg) {
        if first {
            out.push(PathComponent { kind: ComponentKind::CurDir, name: Vec::new() });
        }
    } else if is_dot_dot(&seg) {
        out.push(PathComponent { kind: ComponentKind::ParentDir, name: Vec::new() });
    } else {
        out.push(PathComponent { kind: ComponentKind::Normal, name: seg });
    }
    assert(components_view(out@) =~= before + segment_component(seg@, first));
}

/// Splits a path into its components.
pub fn components(s: &[char]) -> (r: Vec<PathComponent>)
    ensures
        components_view(r@) == path_components(s@),
{
    let mut out: Vec<PathComponent> = Vec::new();
    if s.len() > 0 && s[0] == '/' {
        out.push(PathComponent { kind: ComponentKind::RootDir, name: Vec::new() });
    }
    let mut seg: Vec<char> = Vec::new();
    let mut index: usize = 0;
    let mut i: usize = 0;
    assert(components_view(out@) =~= scan_components(s@, 0).0);
    while i < s.len()
        invariant
            i <= s.len(),
            index <= i,
            components_view(out@) == scan_components(s@, i as nat).0,
            seg@ == scan_components(s@, i as nat).1,
            index == scan_components(s@, i as nat).2,
        decreases s.len() - i,
    {
        let c = s[i];
        if c == '/' {
            let done = seg;
            seg = Vec::new();
            push_segment(&mut out, done, index == 0);
            index += 1;
        } else {
            seg.push(c);
        }
        i += 1;
    }
    push_segment(&mut out, seg, index == 0);
    out
}

/// Three-way comparison of two character sequences by code point.
pub fn compare_chars(a: &[char], b: &[char]) -> (r: i8)
    ensures
        r == chars_order(a@, b@),
{
    let mut i: usize = 0;
    assert(a@.skip(0) =~= a@);
    assert(b@.skip(0) =~= b@);
    while i < a.len() && i < b.len()
        invariant
            i <= a.len(),
            i <= b.len(),
            chars_order(a@, b@) == chars_order(a@.skip(i as int), b@.skip(i as int)),
        decreases a.len() - i,
    {
        let x = a[i];
        let y = b[i];
        if (x as u32) < (y as u32) {
            return -1;
        }
        if (x as u32) > (y as u32) {
            return 1;
        }
        assert(a@.skip(i as int).drop_first() =~= a@.skip(i as int + 1));
        assert(b@.skip(i as int).drop_first() =~= b@.skip(i as int + 1));
        i += 1;
    }
    if i < a.len() {
        1
    } else if i < b.len() {
        -1
    } else {
        0
    }
}

fn kind_order(k: ComponentKind) -> (r: u8)
    ensures
        r as int == kind_rank(k),
{
    match k {
        ComponentKind::RootDir => 1,
        ComponentKind::CurDir => 2,
        ComponentKind::ParentDir => 3,
        ComponentKind::Normal => 4,
    }
}

fn compare_component(x: &PathComponent, y: &PathComponent) -> (r: i8)
    ensures
        r == component_order(x.view_pair(), y.view_pair()),
{
    let kx = kind_order(x.kind);
    let ky = kind_order(y.kind);
    if kx < ky {
        -1
    } else if kx > ky {
        1
    } else {
        compare_chars(x.name.as_slice(), y.name.as_slice())
    }
}

/// Whether two components are the same component.
pub fn same_component(x: &PathComponent, y: &PathComponent) -> (r: bool)
    ensures
        r == (x.view_pair() == y.view_pair()),
{
    let kx = kind_order(x.kind);
    let ky = kind_order(y.kind);
    if kx != ky {
        return false;
    }
    crate::chars::chars_eq(x.name.as_slice(), y.name.as_slice())
}

/// A copy of a list of characters.
pub fn clone_chars(v: &Vec<char>) -> (r: Vec<char>)
    ensures
        r@ == v@,
{
    let mut out: Vec<char> = Vec::new();
    let mut i: usize = 0;
    while i < v.len()
        invariant
            i <= v.len(),
            out@ == v@.take(i as int),
        decreases v.len() - i,
    {
        out.push(v[i]);
        assert(out@ =~= v@.take(i as int + 1));
        i += 1;
    }
    assert(v@.take(v.len() as int) =~= v@);
    out
}

/// Three-way comparison of two paths in the ordering of `std::path::Path`.
pub fn compare_paths(a: &str, b: &str) -> (r: i8)
    ensures
        r == path_order(a@, b@),
{
    let ca = chars_of(a);
    let cb = chars_of(b);
    let x = components(ca.as_slice());
    let y = components(cb.as_slice());
    let ghost vx = components_view(x@);
    let ghost vy = components_view(y@);
    let mut i: usize = 0;
    assert(vx.skip(0) =~= vx);
    assert(vy.skip(0) =~= vy);
    while i < x.len() && i < y.len()
        invariant
            i <= x.len(),
            i <= y.len(),
            vx == components_view(x@),
            vy == components_view(y@),
            path_order(a@, b@) == components_order(vx.skip(i as int), vy.skip(i as int)),
        decreases x.len() - i,
    {
        let c = compare_component(&x[i], &y[i]);
        assert(vx.skip(i as int)[0] == x@[i as int].view_pair());
        assert(vy.skip(i as int)[0] == y@[i as int].view_pair());
        if c != 0 {
            return c;
        }
        assert(vx.skip(i as int).drop_first() =~= vx.skip(i as int + 1));
        assert(vy.skip(i as int).drop_first() =~= vy.skip(i as int + 1));
        i += 1;
    }
    if i < x.len() {
        1
    } else if i < y.len() {
        -1
    } else {
        0
    }
}

/// The file name of a path, as characters (`Path::file_name`).
pub fn file_name_of(s: &[char]) -> (r: Option<Vec<char>>)
    ensures
        match r {
            Some(v) => file_name(s@) == Some(v@),
            None => file_name(s@) is None,
        },
{
    let mut comps = components(s);
    let n = comps.len();
    if n == 0 {
        return None;
    }
    let last = comps.pop().unwrap();
    assert(components_view(comps@.push(last)).last() == last.view_pair());
    assert(comps@.push(last) == old_comps_helper(comps@, last));
    match last.kind {
        ComponentKind::Normal => Some(last.name),
        _ => None,
    }
}

spec fn old_comps_helper(v: Seq<PathComponent>, last: PathComponent) -> Seq<PathComponent> {
    v.push(last)
}

/// The last index of a character lies inside the sequence (or is -1).
pub proof fn lemma_last_index_bounds(s: Seq<char>, c: char)
    ensures
        -1 <= last_index_of(s, c) < s.len(),
        last_index_of(s, c) >= 0 ==> s[last_index_of(s, c)] == c,
    decreases s.len(),
{
    if s.len() > 0 && s.last() != c {
        lemma_last_index_bounds(s.drop_last(), c);
    }
}

/// Index of the last occurrence of `c`, if any.
pub fn last_index(s: &[char], c: char) -> (r: Option<usize>)
    ensures
        match r {
            Some(i) => i as int == last_index_of(s@, c),
            None => last_index_of(s@, c) == -1,
        },
{
    let mut i: usize = s.len();
    assert(s@.take(s.len() as int) =~= s@);
    while i > 0
        invariant
            i <= s.len(),
            last_index_of(s@, c) == last_index_of(s@.take(i as int), c),
        decreases i,
    {
        assert(s@.take(i as int).last() == s@[i - 1]);
        if s[i - 1] == c {
            return Some(i - 1);
        }
        assert(s@.take(i as int).drop_last() =~= s@.take(i as int - 1));
        i -= 1;
    }
    None
}

/// The extension of a path, as characters (`Path::extension`).
pub fn extension_of(s: &[char]) -> (r: Option<Vec<char>>)
    ensures
        match r {
            Some(v) => path_extension(s@) == Some(v@),
            None => path_extension(s@) is None,
        },
{
    match file_name_of(s) {
        None => None,
        Some(name) => match last_index(name.as_slice(), '.') {
            None => None,
            Some(i) => {
                proof {
                    lemma_last_index_bounds(name@, '.');
                }
                if i == 0 {
                    None
                } else {
                    let mut ext: Vec<char> = Vec::new();
                    let mut j: usize = i + 1;
                    while j < name.len()
                        invariant
                            i + 1 <= j <= name.len(),
                            ext@ == name@.subrange(i + 1, j as int),
                        decreases name.len() - j,
                    {
                        ext.push(name[j]);
                        assert(name@.subrange(i + 1, j + 1) =~= name@.subrange(i + 1, j as int).push(name@[j as int]));
                        j += 1;
                    }
                    assert(name@.subrange(i + 1, name.len() as int) =~= name@.skip(i + 1));
                    Some(ext)
                }
            },
        },
    }
}

proof fn lemma_char_eq(x: char, y: char)
    requires
        (x as u32) == (y as u32),
    ensures
        x == y,
{
}

/// Character order is antisymmetric, identifies equal sequences and is transitive.
pub proof fn lemma_chars_order(a: Seq<char>, b: Seq<char>, c: Seq<char>)
    ensures
        chars_order(a, b) == -chars_order(b, a),
        -1 <= chars_order(a, b) <= 1,
        chars_order(a, b) == 0 <==> a == b,
        chars_order(a, b) < 0 && chars_order(b, c) < 0 ==> chars_order(a, c) < 0,
    decreases a.len(),
{
    if a.len() > 0 && b.len() > 0 {
        if c.len() > 0 {
            lemma_chars_order(a.drop_first(), b.drop_first(), c.drop_first());
        } else {
            lemma_chars_order(a.drop_first(), b.drop_first(), c);
        }
        if a == b {
            assert(a.drop_first() == b.drop_first());
        }
        assert(a =~= seq![a[0]] + a.drop_first());
        assert(b =~= seq![b[0]] + b.drop_first());
        if (a[0] as u32) == (b[0] as u32) {
            lemma_char_eq(a[0], b[0]);
        }
        if c.len() > 0 && (b[0] as u32) == (c[0] as u32) {
            lemma_char_eq(b[0], c[0]);
        }
    } else if a.len() == 0 && b.len() == 0 {
        assert(a =~= b);
    }
}

/// Component order is antisymmetric, identifies equal components and is transitive.
pub proof fn lemma_component_order(x: ComponentView, y: ComponentView, z: ComponentView)
    ensures
        component_order(x, y) == -component_order(y, x),
        -1 <= component_order(x, y) <= 1,
        component_order(x, y) == 0 <==> x == y,
        component_order(x, y) < 0 && component_order(y, z) < 0 ==> component_order(x, z) < 0,
{
    lemma_chars_order(x.1, y.1, z.1);
    lemma_chars_order(x.1, z.1, y.1);
}

/// Lexicographic component order is antisymmetric, identifies equal sequences and is transitive.
pub proof fn lemma_components_order(a: Seq<ComponentView>, b: Seq<ComponentView>, c: Seq<ComponentView>)
    ensures
        components_order(a, b) == -components_order(b, a),
        -1 <= components_order(a, b) <= 1,
        components_order(a, b) == 0 <==> a == b,
        components_order(a, b) < 0 && components_order(b, c) < 0 ==> components_order(a, c) < 0,
    decreases a.len(),
{
    if a.len() > 0 && b.len() > 0 {
        if c.len() > 0 {
            lemma_components_order(a.drop_first(), b.drop_first(), c.drop_first());
            lemma_component_order(a[0], b[0], c[0]);
            lemma_component_order(b[0], c[0], a[0]);
            lemma_component_order(a[0], c[0], b[0]);
        } else {
            lemma_components_order(a.drop_first(), b.drop_first(), c);
            lemma_component_order(a[0], b[0], a[0]);
        }
        if a == b {
            assert(a.drop_first() == b.drop_first());
        }
        assert(a =~= seq![a[0]] + a.drop_first());
        assert(b =~= seq![b[0]] + b.drop_first());
    } else if a.len() == 0 && b.len() == 0 {
        assert(a =~= b);
    }
}

/// Paths compare by their components: the order is antisymmetric, transitive,
/// and treats paths with the same components as equal.
pub proof fn lemma_path_order(a: Seq<char>, b: Seq<char>, c: Seq<char>)
    ensures
        path_order(a, b) == -path_order(b, a),
        -1 <= path_order(a, b) <= 1,
        path_order(a, b) == 0 <==> path_components(a) == path_components(b),
        path_order(a, b) < 0 && path_order(b, c) < 0 ==> path_order(a, c) < 0,
        path_order(a, b) == 0 ==> path_order(a, c) == path_order(b, c),
{
    lemma_components_order(path_components(a), path_components(b), path_components(c));
}

} // verus!
