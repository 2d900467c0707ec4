//! Relative paths held as text with `/` between components, and the parts of
//! `std::path::Path` that the scaffold reads from them: the file name, the
//! extension, the path without its `.tera` suffix, and component-wise equality
//! and order.

use vstd::prelude::*;
use crate::text;

verus! {

/// `p` without trailing separators and trailing `.` components, the part that
/// ends with the path's last component.
pub open spec fn trim_tail(p: Seq<char>) -> Seq<char>
    decreases p.len(),
{
    if p.len() > 0 && p.last() == '/' {
        trim_tail(p.drop_last())
    } else if p.len() >= 2 && p.last() == '.' && p[p.len() - 2] == '/' {
        trim_tail(p.take(p.len() - 2))
    } else {
        p
    }
}

/// The characters after the last `sep` (all of `s` if there is none).
pub open spec fn after_last(s: Seq<char>, sep: char) -> Seq<char>
    decreases s.len(),
{
    if s.len() == 0 {
        s
    } else if s.last() == sep {
        Seq::<char>::empty()
    } else {
        after_last(s.drop_last(), sep).push(s.last())
    }
}

/// `Path::file_name`: the last component, unless the path ends in `..`, is the
/// root, is `.` or is empty.
pub open spec fn file_name(p: Seq<char>) -> Option<Seq<char>> {
    let name = after_last(trim_tail(p), '/');
    if name.len() == 0 || name == "."@ || name == ".."@ {
        None
    } else {
        Some(name)
    }
}

/// The extension of a file name: what follows its last `.`, provided that the
/// name has a `.` and some text before it.
pub open spec fn name_extension(name: Seq<char>) -> Option<Seq<char>> {
    let ext = after_last(name, '.');
    if !name.contains('.') || name.len() == ext.len() + 1 {
        None
    } else {
        Some(ext)
    }
}

/// `Path::extension`: the extension of the file name, if there is one.
pub open spec fn extension(p: Seq<char>) -> Option<Seq<char>> {
    match file_name(p) {
        Some(name) => name_extension(name),
        None => None,
    }
}

/// The path a rendered template is written to: a path with the extension `tera`
/// loses it (as `Path::with_extension("")` does), any other path is kept.
pub open spec fn template_output_path(p: Seq<char>) -> Seq<char> {
    if extension(p) == Some("tera"@) {
        let q = trim_tail(p);
        q.take(q.len() - 5)
    } else {
        p
    }
}

proof fn lemma_trim_tail_step_slash(p: Seq<char>, hi: int)
    requires
        0 < hi <= p.len(),
        p[hi - 1] == '/',
    ensures
        trim_tail(p.take(hi)) == trim_tail(p.take(hi - 1)),
{
    assert(p.take(hi).drop_last() =~= p.take(hi - 1));
}

proof fn lemma_trim_tail_step_dot(p: Seq<char>, hi: int)
    requires
        2 <= hi <= p.len(),
        p[hi - 1] == '.',
        p[hi - 2] == '/',
    ensures
        trim_tail(p.take(hi)) == trim_tail(p.take(hi - 2)),
{
    assert(p.take(hi).take(hi - 2) =~= p.take(hi - 2));
}

/// The length of `trim_tail(s@)`.
fn trimmed_end(s: &Vec<char>) -> (hi: usize)
    ensures
        hi <= s.len(),
        s@.take(hi as int) == trim_tail(s@),
{
    let mut hi = s.len();
    assert(s@.take(hi as int) =~= s@);
    loop
        invariant
            hi <= s.len(),
            trim_tail(s@) == trim_tail(s@.take(hi as int)),
        ensures
            hi <= s.len(),
            trim_tail(s@) == s@.take(hi as int),
        decreases hi,
    {
        if hi > 0 && s[hi - 1] == '/' {
            proof {
                lemma_trim_tail_step_slash(s@, hi as int);
            }
            hi -= 1;
        } else if hi >= 2 && s[hi - 1] == '.' && s[hi - 2] == '/' {
            proof {
                lemma_trim_tail_step_dot(s@, hi as int);
            }
            hi -= 2;
        } else {
            proof {
                let t = s@.take(hi as int);
                if hi > 0 {
                    assert(t.last() == s@[hi - 1]);
                }
                if hi >= 2 {
                    assert(t[t.len() - 2] == s@[hi - 2]);
                }
                assert(trim_tail(t) == t);
            }
            break;
        }
    }
    hi
}

pub proof fn lemma_after_last(s: Seq<char>, sep: char, j: int)
    requires
        0 <= j <= s.len(),
        j == 0 || s[j - 1] == sep,
        forall|k: int| j <= k < s.len() ==> s[k] != sep,
    ensures
        after_last(s, sep) == s.skip(j),
    decreases s.len() - j,
{
    if s.len() > j {
        lemma_after_last(s.drop_last(), sep, j);
        assert(s.drop_last().skip(j).push(s.last()) =~= s.skip(j));
    } else if j > 0 {
        assert(s.skip(j) =~= Seq::<char>::empty());
    } else {
        assert(s.skip(j) =~= s);
    }
}

/// Index just after the last `sep` in `s[..hi]` (0 if there is none).
fn after_last_index(s: &Vec<char>, hi: usize, sep: char) -> (j: usize)
    requires
        hi <= s.len(),
    ensures
        j <= hi,
        after_last(s@.take(hi as int), sep) == s@.subrange(j as int, hi as int),
        s@.take(hi as int).contains(sep) <==> j > 0,
        j > 0 ==> s@[j - 1] == sep,
{
    let mut j = hi;
    while j > 0 && s[j - 1] != sep
        invariant
            j <= hi <= s.len(),
            forall|k: int| j <= k < hi ==> s@[k] != sep,
        decreases j,
    {
        j -= 1;
    }
    proof {
        let t = s@.take(hi as int);
        lemma_after_last(t, sep, j as int);
        assert(t.skip(j as int) =~= s@.subrange(j as int, hi as int));
        if j > 0 {
            assert(t[j - 1] == sep);
        } else {
            assert forall|k: int| 0 <= k < t.len() implies t[k] != sep by {
                assert(t[k] == s@[k]);
            }
        }
    }
    j
}

/// `Path::file_name` on a path held as text.
pub fn path_file_name(p: &Vec<char>) -> (r: Option<Vec<char>>)
    ensures
        match r {
            Some(v) => file_name(p@) == Some(v@),
            None => file_name(p@) is None,
        },
{
    let hi = trimmed_end(p);
    let j = after_last_index(p, hi, '/');
    let name = text::slice_chars(p, j, hi);
    let dot = text::chars_of(".");
    let dotdot = text::chars_of("..");
    if name.len() == 0 || text::chars_eq(&name, &dot) || text::chars_eq(&name, &dotdot) {
        None
    } else {
        Some(name)
    }
}

/// The extension of a file name held as text.
pub fn name_extension_of(name: &Vec<char>) -> (r: Option<Vec<char>>)
    ensures
        match r {
            Some(v) => name_extension(name@) == Some(v@),
            None => name_extension(name@) is None,
        },
{
    let j = after_last_index(name, name.len(), '.');
    assert(name@.take(name.len() as int) =~= name@);
    if j == 0 || j == 1 {
        None
    } else {
        Some(text::slice_chars(name, j, name.len()))
    }
}

/// `Path::extension` on a path held as text.
pub fn path_extension(p: &Vec<char>) -> (r: Option<Vec<char>>)
    ensures
        match r {
            Some(v) => extension(p@) == Some(v@),
            None => extension(p@) is None,
        },
{
    match path_file_name(p) {
        Some(name) => name_extension_of(&name),
        None => None,
    }
}

/// Whether the extension of `p` is exactly `ext`.
pub fn has_extension(p: &Vec<char>, ext: &str) -> (r: bool)
    ensures
        r == (extension(p@) == Some(ext@)),
{
    let e = text::chars_of(ext);
    match path_extension(p) {
        Some(x) => text::chars_eq(&x, &e),
        None => false,
    }
}

/// The path a rendered template is written to (the `.tera` extension dropped).
pub fn output_path_chars(p: &Vec<char>) -> (r: Vec<char>)
    ensures
        r@ == template_output_path(p@),
{
    if has_extension(p, "tera") {
        let hi = trimmed_end(p);
        proof {
            let q = trim_tail(p@);
            let name = after_last(q, '/');
            assert(file_name(p@) == Some(name));
            let ext = after_last(name, '.');
            assert(ext == "tera"@);
            reveal_strlit("tera");
            lemma_after_last_suffix(q, '/');
            lemma_after_last_suffix(name, '.');
            assert(ext.len() == 4);
            assert(name.len() >= 5);
            assert(q.len() >= 5);
        }
        text::slice_chars(p, 0, hi - 5)
    } else {
        p.clone()
    }
}

proof fn lemma_after_last_suffix(s: Seq<char>, sep: char)
    ensures
        after_last(s, sep).len() <= s.len(),
        s.contains(sep) ==> after_last(s, sep).len() < s.len(),
        after_last(s, sep).len() < s.len() ==> s[s.len() - after_last(s, sep).len() - 1]
            == sep,
    decreases s.len(),
{
    if s.len() > 0 && s.last() != sep {
        lemma_after_last_suffix(s.drop_last(), sep);
        if s.contains(sep) {
            let k = choose|k: int| 0 <= k < s.len() && s[k] == sep;
            assert(s.drop_last()[k] == sep);
        }
    }
}

/// The path a rendered template is written to, as a `String`.
pub fn template_output_rel(p: &str) -> (r: String)
    ensures
        r@ == template_output_path(p@),
{
    let cs = text::chars_of(p);
    let out = output_path_chars(&cs);
    text::string_from_chars(&out)
}

/// `p` with `\` turned into `/`, so that paths compare alike on every platform.
pub fn normalized_rel(rel: &str) -> (r: String)
    ensures
        r@ == text::replace_char(rel@, '\\', '/'),
{
    let cs = text::chars_of(rel);
    let out = text::replace_char_chars(&cs, '\\', '/');
    text::string_from_chars(&out)
}


// ---------------------------------------------------------------------------
// Components, and the equality and order of paths
// ---------------------------------------------------------------------------

/// A piece between separators that stands for a component: not empty and not `.`.
pub open spec fn keeps_piece(piece: Seq<char>) -> bool {
    piece.len() > 0 && piece != "."@
}

/// The pieces that stand for components, in order.
pub open spec fn normal_pieces(ps: Seq<Seq<char>>) -> Seq<Seq<char>>
    decreases ps.len(),
{
    if ps.len() == 0 {
        seq![]
    } else {
        let prev = normal_pieces(ps.drop_last());
        if keeps_piece(ps.last()) {
            prev.push(ps.last())
        } else {
            prev
        }
    }
}

#[verifier::opaque]
/// `Path::components`, each written as text: `/` for the root, `.` for a leading
/// current directory, then every piece between separators that is neither empty
/// nor `.` (so `..` stands for the parent directory).
pub open spec fn components(p: Seq<char>) -> Seq<Seq<char>> {
    let lead = if p.len() > 0 && p[0] == '/' {
        seq!["/"@]
    } else if p == "."@ || text::has_prefix(p, "./"@) {
        seq!["."@]
    } else {
        seq![]
    };
    lead + normal_pieces(text::split_on(p, '/'))
}

/// The rank of a component in `std::path::Component`'s order: root, current
/// directory, parent directory, then ordinary names.
pub open spec fn component_rank(c: Seq<char>) -> int {
    if c == "/"@ {
        0
    } else if c == "."@ {
        1
    } else if c == ".."@ {
        2
    } else {
        3
    }
}

/// Lexicographic order of character sequences (the byte order of their UTF-8 text).
pub open spec fn chars_less(a: Seq<char>, b: Seq<char>) -> bool
    decreases a.len(),
{
    if a.len() == 0 {
        b.len() > 0
    } else if b.len() == 0 {
        false
    } else if a[0] == b[0] {
        chars_less(a.drop_first(), b.drop_first())
    } else {
        a[0] < b[0]
    }
}

/// The order of two components.
pub open spec fn component_less(a: Seq<char>, b: Seq<char>) -> bool {
    component_rank(a) < component_rank(b) || (component_rank(a) == component_rank(b)
        && component_rank(a) == 3 && chars_less(a, b))
}

/// The order of `Path`s: lexicographic over their components.
#[verifier::opaque]
pub open spec fn components_less(x: Seq<Seq<char>>, y: Seq<Seq<char>>) -> bool
    decreases x.len(),
{
    if x.len() == 0 {
        y.len() > 0
    } else if y.len() == 0 {
        false
    } else if x[0] == y[0] {
        components_less(x.drop_first(), y.drop_first())
    } else {
        component_less(x[0], y[0])
    }
}

pub proof fn lemma_chars_less_irreflexive(a: Seq<char>)
    ensures
        !chars_less(a, a),
    decreases a.len(),
{
    if a.len() > 0 {
        lemma_chars_less_irreflexive(a.drop_first());
    }
}

pub proof fn lemma_chars_less_total(a: Seq<char>, b: Seq<char>)
    ensures
        a != b ==> (chars_less(a, b) || chars_less(b, a)),
        chars_less(a, b) ==> !chars_less(b, a),
    decreases a.len(),
{
    if a.len() > 0 && b.len() > 0 {
        lemma_chars_less_total(a.drop_first(), b.drop_first());
        if a != b && a[0] == b[0] {
            assert(a.drop_first() != b.drop_first()) by {
                if a.drop_first() == b.drop_first() {
                    assert(a =~= seq![a[0]] + a.drop_first());
                    assert(b =~= seq![b[0]] + b.drop_first());
                }
            }
        }
    } else if a.len() == 0 && b.len() == 0 {
        assert(a =~= b);
    }
}

pub proof fn lemma_chars_less_transitive(a: Seq<char>, b: Seq<char>, c: Seq<char>)
    requires
        chars_less(a, b),
        chars_less(b, c),
    ensures
        chars_less(a, c),
    decreases a.len(),
{
    if a.len() > 0 && b.len() > 0 && c.len() > 0 && a[0] == b[0] && b[0] == c[0] {
        lemma_chars_less_transitive(a.drop_first(), b.drop_first(), c.drop_first());
    }
}

pub proof fn lemma_component_less_order(a: Seq<char>, b: Seq<char>, c: Seq<char>)
    ensures
        !component_less(a, a),
        a != b ==> (component_less(a, b) || component_less(b, a)),
        component_less(a, b) ==> !component_less(b, a),
        component_less(a, b) && component_less(b, c) ==> component_less(a, c),
{
    lemma_chars_less_irreflexive(a);
    lemma_chars_less_total(a, b);
    if chars_less(a, b) && chars_less(b, c) {
        lemma_chars_less_transitive(a, b, c);
    }
}

pub proof fn lemma_components_less_irreflexive(x: Seq<Seq<char>>)
    ensures
        !components_less(x, x),
    decreases x.len(),
{
    reveal(components_less);
    if x.len() > 0 {
        lemma_components_less_irreflexive(x.drop_first());
    }
}

pub proof fn lemma_components_less_total(x: Seq<Seq<char>>, y: Seq<Seq<char>>)
    ensures
        x != y ==> (components_less(x, y) || components_less(y, x)),
        components_less(x, y) ==> !components_less(y, x),
    decreases x.len(),
{
    reveal(components_less);
    if x.len() > 0 && y.len() > 0 {
        lemma_components_less_total(x.drop_first(), y.drop_first());
        lemma_component_less_order(x[0], y[0], x[0]);
        if x != y && x[0] == y[0] {
            assert(x.drop_first() != y.drop_first()) by {
                if x.drop_first() == y.drop_first() {
                    assert(x =~= seq![x[0]] + x.drop_first());
                    assert(y =~= seq![y[0]] + y.drop_first());
                }
            }
        }
    } else if x.len() == 0 && y.len() == 0 {
        assert(x =~= y);
    }
}

pub proof fn lemma_components_less_transitive(
    x: Seq<Seq<char>>,
    y: Seq<Seq<char>>,
    z: Seq<Seq<char>>,
)
    requires
        components_less(x, y),
        components_less(y, z),
    ensures
        components_less(x, z),
    decreases x.len(),
{
    reveal(components_less);
    if x.len() > 0 && y.len() > 0 && z.len() > 0 {
        lemma_component_less_order(x[0], y[0], z[0]);
        lemma_component_less_order(y[0], z[0], x[0]);
        if x[0] == y[0] && y[0] == z[0] {
            lemma_components_less_transitive(x.drop_first(), y.drop_first(), z.drop_first());
        }
    }
}

proof fn lemma_chars_less_skip(a: Seq<char>, b: Seq<char>, i: int)
    requires
        0 <= i <= a.len(),
        i <= b.len(),
        forall|j: int| 0 <= j < i ==> a[j] == b[j],
    ensures
        chars_less(a, b) == chars_less(a.skip(i), b.skip(i)),
    decreases i,
{
    if i > 0 {
        assert(a.drop_first().skip(i - 1) =~= a.skip(i));
        assert(b.drop_first().skip(i - 1) =~= b.skip(i));
        lemma_chars_less_skip(a.drop_first(), b.drop_first(), i - 1);
    } else {
        assert(a.skip(0) =~= a);
        assert(b.skip(0) =~= b);
    }
}

/// `a < b` in the lexicographic order of characters.
pub fn chars_less_exec(a: &Vec<char>, b: &Vec<char>) -> (r: bool)
    ensures
        r == chars_less(a@, b@),
{
    let mut i: usize = 0;
    while i < a.len() && i < b.len() && a[i] == b[i]
        invariant
            i <= a.len(),
            i <= b.len(),
            forall|j: int| 0 <= j < i ==> a@[j] == b@[j],
        decreases a.len() - i,
    {
        i += 1;
    }
    proof {
        lemma_chars_less_skip(a@, b@, i as int);
    }
    if i == a.len() {
        i < b.len()
    } else if i == b.len() {
        false
    } else {
        proof {
            assert(a@.skip(i as int)[0] == a@[i as int]);
            assert(b@.skip(i as int)[0] == b@[i as int]);
        }
        a[i] < b[i]
    }
}

fn component_rank_exec(c: &Vec<char>) -> (r: u8)
    ensures
        r as int == component_rank(c@),
{
    let root = text::chars_of("/");
    let cur = text::chars_of(".");
    let parent = text::chars_of("..");
    if text::chars_eq(c, &root) {
        0
    } else if text::chars_eq(c, &cur) {
        1
    } else if text::chars_eq(c, &parent) {
        2
    } else {
        3
    }
}

fn component_less_exec(a: &Vec<char>, b: &Vec<char>) -> (r: bool)
    ensures
        r == component_less(a@, b@),
{
    let ra = component_rank_exec(a);
    let rb = component_rank_exec(b);
    ra < rb || (ra == rb && ra == 3 && chars_less_exec(a, b))
}

proof fn lemma_components_less_skip(x: Seq<Seq<char>>, y: Seq<Seq<char>>, i: int)
    requires
        0 <= i <= x.len(),
        i <= y.len(),
        forall|j: int| 0 <= j < i ==> x[j] == y[j],
    ensures
        components_less(x, y) == components_less(x.skip(i), y.skip(i)),
    decreases i,
{
    reveal(components_less);
    if i > 0 {
        assert(x.drop_first().skip(i - 1) =~= x.skip(i));
        assert(y.drop_first().skip(i - 1) =~= y.skip(i));
        lemma_components_less_skip(x.drop_first(), y.drop_first(), i - 1);
    } else {
        assert(x.skip(0) =~= x);
        assert(y.skip(0) =~= y);
    }
}

/// `x < y` in the order of paths, given their components.
pub fn components_less_exec(x: &Vec<Vec<char>>, y: &Vec<Vec<char>>) -> (r: bool)
    ensures
        r == components_less(text::lines_view(x@), text::lines_view(y@)),
{
    let ghost xv = text::lines_view(x@);
    let ghost yv = text::lines_view(y@);
    let mut i: usize = 0;
    while i < x.len() && i < y.len() && text::chars_eq(&x[i], &y[i])
        invariant
            i <= x.len(),
            i <= y.len(),
            xv == text::lines_view(x@),
            yv == text::lines_view(y@),
            forall|j: int| 0 <= j < i ==> xv[j] == yv[j],
        decreases x.len() - i,
    {
        i += 1;
    }
    proof {
        lemma_components_less_skip(xv, yv, i as int);
        reveal(components_less);
    }
    if i == x.len() {
        i < y.len()
    } else if i == y.len() {
        false
    } else {
        proof {
            assert(xv.skip(i as int)[0] == x@[i as int]@);
            assert(yv.skip(i as int)[0] == y@[i as int]@);
        }
        component_less_exec(&x[i], &y[i])
    }
}

/// Whether two paths have the same components (`Path`'s equality).
pub fn components_eq_exec(x: &Vec<Vec<char>>, y: &Vec<Vec<char>>) -> (r: bool)
    ensures
        r == (text::lines_view(x@) == text::lines_view(y@)),
{
    if x.len() != y.len() {
        assert(text::lines_view(x@).len() != text::lines_view(y@).len());
        return false;
    }
    let ghost xv = text::lines_view(x@);
    let ghost yv = text::lines_view(y@);
    let mut i: usize = 0;
    while i < x.len()
        invariant
            x.len() == y.len(),
            i <= x.len(),
            xv == text::lines_view(x@),
            yv == text::lines_view(y@),
            forall|j: int| 0 <= j < i ==> xv[j] == yv[j],
        decreases x.len() - i,
    {
        if !text::chars_eq(&x[i], &y[i]) {
            assert(xv[i as int] != yv[i as int]);
            return false;
        }
        i += 1;
    }
    assert(xv =~= yv);
    true
}

fn keeps_piece_exec(piece: &Vec<char>) -> (r: bool)
    ensures
        r == keeps_piece(piece@),
{
    let dot = text::chars_of(".");
    piece.len() > 0 && !text::chars_eq(piece, &dot)
}

/// The components of a path held as text.
pub fn path_components(p: &Vec<char>) -> (r: Vec<Vec<char>>)
    ensures
        text::lines_view(r@) == components(p@),
{
    reveal(components);
    let mut out: Vec<Vec<char>> = Vec::new();
    let slash = text::chars_of("/");
    let dot = text::chars_of(".");
    let dot_slash = text::chars_of("./");
    if p.len() > 0 && p[0] == '/' {
        out.push(slash);
    } else if text::chars_eq(p, &dot) || text::starts_with(p, &dot_slash) {
        out.push(dot);
    }
    let ghost lead = text::lines_view(out@);
    let mut cur: Vec<char> = Vec::new();
    let mut i: usize = 0;
    proof {
        let e = Seq::<char>::empty();
        assert(p@.take(0) =~= e);
        assert(text::split_on(e, '/') == seq![e]);
        assert(seq![e].drop_last() =~= Seq::<Seq<char>>::empty());
        assert(lead + normal_pieces(Seq::<Seq<char>>::empty()) =~= lead);
    }
    while i < p.len()
        invariant
            i <= p.len(),
            text::lines_view(out@) == lead + normal_pieces(
                text::split_on(p@.take(i as int), '/').drop_last(),
            ),
            cur@ == text::split_on(p@.take(i as int), '/').last(),
        decreases p.len() - i,
    {
        let ghost prefix = p@.take(i as int);
        let ghost ps = text::split_on(prefix, '/');
        let c = p[i];
        proof {
            assert(p@.take(i + 1) =~= prefix.push(c));
            text::lemma_split_on_push(prefix, '/', c);
            text::lemma_split_on_len(prefix, '/');
        }
        if c == '/' {
            proof {
                assert(ps.push(Seq::<char>::empty()).drop_last() =~= ps);
                assert(ps =~= ps.drop_last().push(ps.last()));
            }
            let keep = keeps_piece_exec(&cur);
            let ghost before = text::lines_view(out@);
            if keep {
                out.push(cur);
                assert(text::lines_view(out@) =~= before.push(ps.last()));
            }
            cur = Vec::new();
            proof {
                assert(text::lines_view(out@) =~= lead + normal_pieces(ps));
            }
        } else {
            proof {
                let qs = ps.update(ps.len() - 1, ps.last().push(c));
                assert(qs.drop_last() =~= ps.drop_last());
            }
            cur.push(c);
        }
        i += 1;
    }
    proof {
        let ps = text::split_on(p@, '/');
        assert(p@.take(p.len() as int) =~= p@);
        text::lemma_split_on_len(p@, '/');
        assert(ps =~= ps.drop_last().push(ps.last()));
    }
    let keep = keeps_piece_exec(&cur);
    let ghost before = text::lines_view(out@);
    if keep {
        out.push(cur);
        assert(text::lines_view(out@) =~= before.push(text::split_on(p@, '/').last()));
    }
    out
}


// ---------------------------------------------------------------------------
// Where a template file is written
// ---------------------------------------------------------------------------

/// The placeholder for the crate directory in template paths.
pub open spec fn crate_placeholder() -> Seq<char> {
    "{{ crate_name }}"@
}

/// Where a template file at `rel` is written: the crate placeholder replaced by
/// `crate_name`, then the `.tera` extension dropped.
pub open spec fn output_path(rel: Seq<char>, crate_name: Seq<char>) -> Seq<char> {
    template_output_path(text::replace_all(rel, crate_placeholder(), crate_name))
}

/// The template path `rel` with the crate placeholder replaced by `crate_name`
/// (the path a template is rendered under).
pub fn placed_rel(rel: &str, crate_name: &str) -> (r: String)
    ensures
        r@ == text::replace_all(rel@, crate_placeholder(), crate_name@),
{
    let rc = text::chars_of(rel);
    let pat = text::chars_of("{{ crate_name }}");
    proof {
        reveal_strlit("{{ crate_name }}");
    }
    let cc = text::chars_of(crate_name);
    let replaced = text::replace_all_chars(&rc, &pat, &cc);
    text::string_from_chars(&replaced)
}

/// The path (relative to the project) that the template file at `rel` is written to.
pub fn output_rel_for(rel: &str, crate_name: &str) -> (r: String)
    ensures
        r@ == output_path(rel@, crate_name@),
{
    let placed = placed_rel(rel, crate_name);
    template_output_rel(placed.as_str())
}

} // verus!
