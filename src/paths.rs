//! Paths as text: components are separated by `/`, the file name is what follows the
//! last `/`, and an extension is what follows the last `.` of the file name when that
//! dot is not its first character.
use vstd::prelude::*;
use crate::text::{
    chars_of, is_white, replace_char, slice_vec, string_of, string_of_range, trim_end, trim_vec,
    trim_start, trimmed,
};

verus! {

/// The extension that marks a notebook file.
pub const SYSTEM_FILES_EXTENSION: &'static str = "lpnb";

/// The notebook extension as characters.
pub open spec fn notebook_ext() -> Seq<char> {
    seq!['l', 'p', 'n', 'b']
}

/// Index of the last occurrence of `c` in `s`.
pub open spec fn last_index_of(s: Seq<char>, c: char) -> Option<int>
    decreases s.len(),
{
    if s.len() == 0 {
        None
    } else if s.last() == c {
        Some(s.len() - 1)
    } else {
        last_index_of(s.drop_last(), c)
    }
}

/// Where the file name of `p` begins.
pub open spec fn name_start(p: Seq<char>) -> int {
    match last_index_of(p, '/') {
        Some(i) => i + 1,
        None => 0,
    }
}

/// The last component of `p`.
pub open spec fn file_name(p: Seq<char>) -> Seq<char> {
    p.skip(name_start(p))
}

/// Index in `p` of the dot that begins its extension, if `p` has one.
pub open spec fn ext_dot(p: Seq<char>) -> Option<int> {
    let n = file_name(p);
    match last_index_of(n, '.') {
        Some(d) => if d > 0 && n != seq!['.', '.'] {
            Some(name_start(p) + d)
        } else {
            None
        },
        None => None,
    }
}

pub open spec fn has_extension(p: Seq<char>) -> bool {
    ext_dot(p) is Some
}

/// The extension of `p`, without its dot (empty when there is none).
pub open spec fn extension(p: Seq<char>) -> Seq<char> {
    match ext_dot(p) {
        Some(d) => p.skip(d + 1),
        None => Seq::empty(),
    }
}

/// `p` with its extension and the dot before it removed.
pub open spec fn without_extension(p: Seq<char>) -> Seq<char> {
    match ext_dot(p) {
        Some(d) => p.take(d),
        None => p,
    }
}

/// `p` with the notebook extension removed, if it ends in one.
pub open spec fn strip_notebook_ext(p: Seq<char>) -> Seq<char> {
    if has_extension(p) && extension(p) == notebook_ext() {
        without_extension(p)
    } else {
        p
    }
}

/// The module name of `p`: the notebook extension and then one more extension removed.
pub open spec fn module_name_of(p: Seq<char>) -> Seq<char> {
    without_extension(strip_notebook_ext(p))
}

/// The extension left once the notebook extension is gone, or else the file name.
pub open spec fn module_extension(p: Seq<char>) -> Seq<char> {
    let q = strip_notebook_ext(p);
    if has_extension(q) {
        extension(q)
    } else {
        file_name(q)
    }
}

/// What is left of `p` below the directory `root`, when `root` is one of its ancestors
/// or `p` itself.
pub open spec fn below(root: Seq<char>, p: Seq<char>) -> Option<Seq<char>> {
    if root.len() == 0 {
        Some(p)
    } else if root.is_prefix_of(p) {
        let rest = p.skip(root.len() as int);
        if rest.len() == 0 {
            Some(rest)
        } else if rest[0] == '/' || root.last() == '/' {
            Some(drop_slashes(rest))
        } else {
            None
        }
    } else {
        None
    }
}

/// `s` without its leading separators.
pub open spec fn drop_slashes(s: Seq<char>) -> Seq<char>
    decreases s.len(),
{
    if s.len() > 0 && s[0] == '/' {
        drop_slashes(s.drop_first())
    } else {
        s
    }
}

proof fn lemma_drop_slashes_skip(s: Seq<char>, i: int)
    requires
        0 <= i <= s.len(),
        forall|k: int| 0 <= k < i ==> s[k] == '/',
        i == s.len() || s[i] != '/',
    ensures
        drop_slashes(s) == s.skip(i),
    decreases i,
{
    if i > 0 {
        assert(s.drop_first().skip(i - 1) == s.skip(i));
        lemma_drop_slashes_skip(s.drop_first(), i - 1);
    } else {
        assert(s.skip(0) == s);
    }
}

/// `p` relative to `root` when it lies below it, otherwise `p` unchanged.
pub open spec fn relative_to(root: Seq<char>, p: Seq<char>) -> Seq<char> {
    match below(root, p) {
        Some(r) => r,
        None => p,
    }
}

/// The anchor of a header: trimmed, then each ASCII space turned into a hyphen.
pub open spec fn anchor_of(h: Seq<char>) -> Seq<char> {
    replace_char(trimmed(h), ' ', '-')
}

/// `b` appended to `a` as a further component; an absolute `b` replaces `a`.
pub open spec fn join(a: Seq<char>, b: Seq<char>) -> Seq<char> {
    if b.len() > 0 && b[0] == '/' {
        b
    } else if a.len() == 0 || a.last() == '/' {
        a + b
    } else {
        a + seq!['/'] + b
    }
}

/// `p` without its last component.
pub open spec fn parent(p: Seq<char>) -> Seq<char> {
    match last_index_of(p, '/') {
        Some(i) => if i == 0 {
            seq!['/']
        } else {
            p.take(i)
        },
        None => Seq::empty(),
    }
}

/// `p` with its extension set to `e`: the old one, if any, is replaced; an empty `e`
/// removes it. A path with an empty file name is left as it is.
pub open spec fn with_extension(p: Seq<char>, e: Seq<char>) -> Seq<char> {
    if file_name(p).len() == 0 {
        p
    } else if e.len() == 0 {
        without_extension(p)
    } else {
        without_extension(p) + seq!['.'] + e
    }
}

// ---------------------------------------------------------------------------
// Executable counterparts over `Vec<char>`.
fn rfind(v: &Vec<char>, to: usize, c: char) -> (r: Option<usize>)
    requires
        to <= v@.len(),
    ensures
        match r {
            Some(i) => last_index_of(v@.take(to as int), c) == Some(i as int),
            None => last_index_of(v@.take(to as int), c) is None,
        },
{
    let mut j: usize = to;
    while j > 0
        invariant
            j <= to <= v@.len(),
            last_index_of(v@.take(to as int), c) == last_index_of(v@.take(j as int), c),
        decreases j,
    {
        assert(v@.take(j as int).drop_last() == v@.take(j - 1));
        if v[j - 1] == c {
            return Some(j - 1);
        }
        j -= 1;
    }
    None
}

fn name_start_exec(v: &Vec<char>) -> (r: usize)
    ensures
        r == name_start(v@),
        r <= v@.len(),
{
    assert(v@.take(v@.len() as int) == v@);
    proof { lemma_last_index_bound(v@, '/'); }
    match rfind(v, v.len(), '/') {
        Some(i) => i + 1,
        None => 0,
    }
}

proof fn lemma_last_index_bound(s: Seq<char>, c: char)
    ensures
        match last_index_of(s, c) {
            Some(i) => 0 <= i < s.len() && s[i] == c && forall|k: int| i < k < s.len() ==> s[k] != c,
            None => forall|k: int| 0 <= k < s.len() ==> s[k] != c,
        },
    decreases s.len(),
{
    if s.len() > 0 && s.last() != c {
        lemma_last_index_bound(s.drop_last(), c);
        if last_index_of(s, c) is Some {
            let i = last_index_of(s, c)->0;
            assert forall|k: int| i < k < s.len() implies s[k] != c by {
                if k < s.len() - 1 {
                    assert(s.drop_last()[k] == s[k]);
                }
            }
        }
        if last_index_of(s, c) is None {
            assert forall|k: int| 0 <= k < s.len() implies s[k] != c by {
                if k < s.len() - 1 {
                    assert(s.drop_last()[k] == s[k]);
                }
            }
        }
    }
}

fn ext_dot_exec(v: &Vec<char>) -> (r: Option<usize>)
    ensures
        match r {
            Some(d) => ext_dot(v@) == Some(d as int) && d < v@.len(),
            None => ext_dot(v@) is None,
        },
{
    let s = name_start_exec(v);
    let n = slice_vec(v, s, v.len());
    assert(n@ == file_name(v@));
    assert(n@.take(n@.len() as int) == n@);
    proof {
        lemma_last_index_bound(n@, '.');
    }
    match rfind(&n, n.len(), '.') {
        Some(d) => {
            if d > 0 {
                if n.len() == 2 && n[0] == '.' && n[1] == '.' {
                    assert(n@ =~= seq!['.', '.']);
                    None
                } else {
                    assert(n@ != seq!['.', '.']) by {
                        if n@ == seq!['.', '.'] {
                            assert(seq!['.', '.'].len() == 2);
                            assert(seq!['.', '.'][0] == '.');
                            assert(seq!['.', '.'][1] == '.');
                        }
                    }
                    Some(s + d)
                }
            } else {
                None
            }
        },
        None => None,
    }
}

/// Whether what follows the dot at `dot` in `v` is the notebook extension.
fn is_notebook_ext_after(v: &Vec<char>, dot: usize) -> (r: bool)
    requires
        dot < v@.len(),
    ensures
        r == (v@.skip(dot + 1) == notebook_ext()),
{
    let n = v.len();
    let from = dot + 1;
    let ghost t = v@.skip(from as int);
    assert(notebook_ext().len() == 4 && notebook_ext()[0] == 'l' && notebook_ext()[1] == 'p'
        && notebook_ext()[2] == 'n' && notebook_ext()[3] == 'b');
    if n - from == 4 && v[from] == 'l' && v[from + 1] == 'p' && v[from + 2] == 'n' && v[from + 3]
        == 'b' {
        assert(t =~= notebook_ext());
        true
    } else {
        assert(t != notebook_ext()) by {
            if t == notebook_ext() {
                assert(t[0] == 'l' && t[1] == 'p' && t[2] == 'n' && t[3] == 'b');
            }
        }
        false
    }
}

/// `p` with the notebook extension removed, if it ends in one.
pub fn prepare_module_file_extension(path: &str) -> (r: String)
    ensures
        r@ == strip_notebook_ext(path@),
{
    let v = chars_of(path);
    string_of_range(&v, 0, stripped_len(&v))
}

fn stripped_len(v: &Vec<char>) -> (r: usize)
    ensures
        r <= v@.len(),
        v@.take(r as int) == strip_notebook_ext(v@),
{
    assert(v@.take(v@.len() as int) == v@);
    match ext_dot_exec(v) {
        Some(d) => {
            if is_notebook_ext_after(v, d) {
                d
            } else {
                v.len()
            }
        },
        None => v.len(),
    }
}

/// Whether `p` names a notebook file: its extension is the notebook extension.
pub open spec fn is_notebook(p: Seq<char>) -> bool {
    has_extension(p) && extension(p) == notebook_ext()
}

/// Decides `is_notebook`.
pub fn is_notebook_path(path: &str) -> (r: bool)
    ensures
        r == is_notebook(path@),
{
    let v = chars_of(path);
    match ext_dot_exec(&v) {
        Some(d) => is_notebook_ext_after(&v, d),
        None => false,
    }
}

pub(crate) fn strip_notebook_ext_vec(v: &Vec<char>) -> (r: Vec<char>)
    ensures
        r@ == strip_notebook_ext(v@),
{
    let k = stripped_len(v);
    slice_vec(v, 0, k)
}

pub(crate) fn without_extension_vec(v: &Vec<char>) -> (r: Vec<char>)
    ensures
        r@ == without_extension(v@),
{
    assert(v@.subrange(0, v@.len() as int) == v@);
    match ext_dot_exec(v) {
        Some(d) => slice_vec(v, 0, d),
        None => slice_vec(v, 0, v.len()),
    }
}

/// Eliminates the notebook extension and then one more extension, if there is one:
/// `dir/a.py.lpnb` becomes `dir/a`.
pub fn module_name(path: &str) -> (r: String)
    ensures
        r@ == module_name_of(path@),
{
    let v = chars_of(path);
    let q = strip_notebook_ext_vec(&v);
    string_of(&without_extension_vec(&q))
}

/// The module's own extension: `dir/a.py.lpnb` gives `py`, `Dockerfile.lpnb` gives
/// `Dockerfile`.
pub fn get_module_extension(module: &str) -> (r: String)
    ensures
        r@ == module_extension(module@),
{
    let v = chars_of(module);
    let q = strip_notebook_ext_vec(&v);
    let len = q.len();
    match ext_dot_exec(&q) {
        Some(d) => string_of_range(&q, d + 1, len),
        None => {
            let st = name_start_exec(&q);
            string_of_range(&q, st, len)
        },
    }
}

fn is_prefix(a: &Vec<char>, b: &Vec<char>) -> (r: bool)
    ensures
        r == a@.is_prefix_of(b@),
{
    if a.len() > b.len() {
        return false;
    }
    let mut i: usize = 0;
    while i < a.len()
        invariant
            i <= a@.len() <= b@.len(),
            forall|k: int| 0 <= k < i ==> a@[k] == b@[k],
        decreases a@.len() - i,
    {
        if a[i] != b[i] {
            return false;
        }
        i += 1;
    }
    assert(b@.take(a@.len() as int) =~= a@);
    true
}

fn below_start(root: &Vec<char>, p: &Vec<char>) -> (r: Option<usize>)
    ensures
        match r {
            Some(k) => k <= p@.len() && below(root@, p@) == Some(p@.skip(k as int)),
            None => below(root@, p@) is None,
        },
{
    if root.len() == 0 {
        assert(p@.skip(0) == p@);
        return Some(0);
    }
    if !is_prefix(root, p) {
        return None;
    }
    let n = root.len();
    let ghost rest = p@.skip(n as int);
    if n == p.len() {
        Some(n)
    } else if p[n] == '/' || root[n - 1] == '/' {
        let mut k: usize = n;
        while k < p.len() && p[k] == '/'
            invariant
                n <= k <= p@.len(),
                rest == p@.skip(n as int),
                forall|j: int| n <= j < k ==> p@[j] == '/',
            decreases p@.len() - k,
        {
            k += 1;
        }
        proof {
            assert forall|j: int| 0 <= j < k - n implies rest[j] == '/' by {
                assert(rest[j] == p@[n + j]);
            }
            if k < p@.len() {
                assert(rest[k - n] == p@[k as int]);
            }
            lemma_drop_slashes_skip(rest, k - n);
            assert(rest.skip(k - n) == p@.skip(k as int));
        }
        Some(k)
    } else {
        None
    }
}

/// Eliminates the directory prefix `source_dir` from `path`; a path outside it is
/// returned unchanged.
pub fn clean_path(source_dir: &str, path: &str) -> (r: String)
    ensures
        r@ == relative_to(source_dir@, path@),
{
    let root = chars_of(source_dir);
    let p = chars_of(path);
    match below_start(&root, &p) {
        Some(k) => {
            assert(p@.subrange(k as int, p@.len() as int) == p@.skip(k as int));
            string_of_range(&p, k, p.len())
        },
        None => string_of(&p),
    }
}

/// Converts a header to its anchor: trimmed, then each space replaced by a hyphen.
pub fn header_to_anchor(header: &str) -> (r: String)
    ensures
        r@ == anchor_of(header@),
{
    string_of(&anchor_vec(&chars_of(header)))
}

pub(crate) fn anchor_vec(h: &Vec<char>) -> (r: Vec<char>)
    ensures
        r@ == anchor_of(h@),
{
    let t = trim_vec(h);
    let mut out: Vec<char> = Vec::new();
    let mut i: usize = 0;
    while i < t.len()
        invariant
            i <= t@.len(),
            out@ == replace_char(t@.take(i as int), ' ', '-'),
        decreases t@.len() - i,
    {
        let c = if t[i] == ' ' {
            '-'
        } else {
            t[i]
        };
        out.push(c);
        assert(replace_char(t@.take(i + 1), ' ', '-') =~= replace_char(t@.take(i as int), ' ', '-').push(c));
        i += 1;
    }
    assert(t@.take(t@.len() as int) == t@);
    out
}

fn extend(dst: &mut Vec<char>, src: &Vec<char>)
    ensures
        final(dst)@ == old(dst)@ + src@,
{
    let mut i: usize = 0;
    while i < src.len()
        invariant
            i <= src@.len(),
            dst@ == old(dst)@ + src@.take(i as int),
        decreases src@.len() - i,
    {
        dst.push(src[i]);
        assert(src@.take(i + 1) == src@.take(i as int).push(src@[i as int]));
        i += 1;
    }
    assert(src@.take(src@.len() as int) == src@);
}

pub(crate) fn join_vec(a: &Vec<char>, b: &Vec<char>) -> (r: Vec<char>)
    ensures
        r@ == join(a@, b@),
{
    if b.len() > 0 && b[0] == '/' {
        return slice_vec(b, 0, b.len());
    }
    let mut r = slice_vec(a, 0, a.len());
    assert(a@.subrange(0, a@.len() as int) == a@);
    assert(b@.subrange(0, b@.len() as int) == b@);
    if !(a.len() == 0 || a[a.len() - 1] == '/') {
        r.push('/');
        assert(a@.push('/') == a@ + seq!['/']);
    }
    extend(&mut r, b);
    r
}

/// `b` appended to `a` as a further component (an absolute `b` replaces `a`).
pub fn join_path(a: &str, b: &str) -> (r: String)
    ensures
        r@ == join(a@, b@),
{
    string_of(&join_vec(&chars_of(a), &chars_of(b)))
}

pub(crate) fn parent_vec(v: &Vec<char>) -> (r: Vec<char>)
    ensures
        r@ == parent(v@),
{
    assert(v@.take(v@.len() as int) == v@);
    match rfind(v, v.len(), '/') {
        Some(i) => {
            proof {
                lemma_last_index_bound(v@, '/');
            }
            if i == 0 {
                let mut r: Vec<char> = Vec::new();
                r.push('/');
                assert(r@ =~= seq!['/']);
                r
            } else {
                slice_vec(v, 0, i)
            }
        },
        None => Vec::new(),
    }
}

pub(crate) fn with_extension_vec(v: &Vec<char>, e: &Vec<char>) -> (r: Vec<char>)
    ensures
        r@ == with_extension(v@, e@),
{
    let st = name_start_exec(v);
    if st == v.len() {
        assert(file_name(v@).len() == 0);
        return slice_vec(v, 0, v.len());
    }
    let mut r = without_extension_vec(v);
    if e.len() > 0 {
        r.push('.');
        extend(&mut r, e);
        assert(without_extension(v@).push('.') == without_extension(v@) + seq!['.']);
    }
    r
}

proof fn lemma_trim_end_prefix(s: Seq<char>)
    ensures
        trim_end(s) == s.take(trim_end(s).len() as int),
        trim_end(s).len() <= s.len(),
        trim_end(s).len() == 0 || !is_white(trim_end(s).last()),
        s.len() > 0 && !is_white(s[0]) ==> trim_end(s).len() > 0,
    decreases s.len(),
{
    if s.len() > 0 && is_white(s.last()) {
        lemma_trim_end_prefix(s.drop_last());
        let t = trim_end(s.drop_last());
        assert(s.drop_last().take(t.len() as int) == s.take(t.len() as int));
        if s.len() > 1 {
            assert(s.drop_last()[0] == s[0]);
        }
    } else {
        assert(s.take(s.len() as int) == s);
    }
}

proof fn lemma_trim_start_first(s: Seq<char>)
    ensures
        trim_start(s).len() == 0 || !is_white(trim_start(s)[0]),
    decreases s.len(),
{
    if s.len() > 0 && is_white(s[0]) {
        lemma_trim_start_first(s.drop_first());
    }
}

/// Trimmed text begins and ends with a character that is not white space.
proof fn lemma_trimmed_ends(h: Seq<char>)
    ensures
        trimmed(h).len() == 0 || (!is_white(trimmed(h)[0]) && !is_white(trimmed(h).last())),
{
    let s = trim_start(h);
    lemma_trim_start_first(h);
    lemma_trim_end_prefix(s);
    let t = trim_end(s);
    if t.len() > 0 {
        assert(t[0] == s[0]);
    }
}

/// Text that neither begins nor ends with white space is its own trim.
proof fn lemma_trimmed_fixed(s: Seq<char>)
    requires
        s.len() == 0 || (!is_white(s[0]) && !is_white(s.last())),
    ensures
        trimmed(s) == s,
{
}

/// An anchor is trimmed text without spaces, and for such text `anchor_of` is the
/// identity; hence turning a header into an anchor twice gives the anchor once.
pub proof fn lemma_anchor_idempotent(h: Seq<char>)
    ensures
        anchor_of(anchor_of(h)) == anchor_of(h),
        !anchor_of(h).contains(' '),
        trimmed(anchor_of(h)) == anchor_of(h),
{
    let t = trimmed(h);
    let a = anchor_of(h);
    lemma_trimmed_ends(h);
    assert(a.len() == t.len());
    if a.len() > 0 {
        assert(a[0] == t[0]);
        assert(a.last() == t.last());
    }
    lemma_trimmed_fixed(a);
    lemma_anchor_of_plain(a);
}

/// Text without spaces and without white space at either end is already an anchor.
pub proof fn lemma_anchor_of_plain(s: Seq<char>)
    requires
        !s.contains(' '),
        s.len() == 0 || (!is_white(s[0]) && !is_white(s.last())),
    ensures
        anchor_of(s) == s,
{
    lemma_trimmed_fixed(s);
    assert(replace_char(s, ' ', '-') =~= s);
}

/// The module name of a path whose module name carries no extension of its own is a
/// fixed point: naming it again changes nothing.
pub proof fn lemma_module_name_idempotent(p: Seq<char>)
    requires
        !has_extension(module_name_of(p)),
    ensures
        module_name_of(module_name_of(p)) == module_name_of(p),
{
}

/// Index of the dot that begins the extension of `v`, if any.
pub fn ext_dot_pub(v: &Vec<char>) -> (r: Option<usize>)
    ensures
        match r {
            Some(d) => ext_dot(v@) == Some(d as int) && name_start(v@) <= d < v@.len(),
            None => ext_dot(v@) is None,
        },
{
    proof {
        lemma_last_index_bound(v@, '/');
    }
    let r = ext_dot_exec(v);
    proof {
        if r is Some {
            lemma_last_index_bound(file_name(v@), '.');
        }
    }
    r
}

/// Where the file name of `v` begins.
pub fn name_start_pub(v: &Vec<char>) -> (r: usize)
    ensures
        r == name_start(v@),
        r <= v@.len(),
{
    name_start_exec(v)
}

/// The file name of a path without its extension is the part of the file name before
/// the extension's dot.
pub proof fn lemma_name_of_stripped(p: Seq<char>)
    requires
        ext_dot(p) is Some,
    ensures
        file_name(without_extension(p)) == p.subrange(name_start(p), ext_dot(p)->0),
{
    let d = ext_dot(p)->0;
    let s = name_start(p);
    let q = p.take(d);
    lemma_last_index_bound(p, '/');
    lemma_last_index_bound(file_name(p), '.');
    lemma_last_index_prefix(p, '/', d);
    assert(q.skip(s) == p.subrange(s, d));
}

/// Cutting a sequence after its last `c` keeps that last `c`.
proof fn lemma_last_index_prefix(s: Seq<char>, c: char, k: int)
    requires
        0 <= k <= s.len(),
        forall|j: int| k <= j < s.len() ==> s[j] != c,
    ensures
        last_index_of(s.take(k), c) == last_index_of(s, c),
    decreases s.len() - k,
{
    if k < s.len() {
        assert(s.drop_last().take(k) == s.take(k));
        lemma_last_index_prefix(s.drop_last(), c, k);
    } else {
        assert(s.take(k) == s);
    }
}

/// The extension's dot lies inside the file name.
pub proof fn lemma_ext_dot_bound(p: Seq<char>)
    requires
        ext_dot(p) is Some,
    ensures
        0 <= name_start(p) < ext_dot(p)->0 < p.len(),
{
    lemma_last_index_bound(p, '/');
    lemma_last_index_bound(file_name(p), '.');
}

/// Removing the notebook extension either changes nothing or shortens the path.
pub proof fn lemma_strip_shorter(p: Seq<char>)
    ensures
        strip_notebook_ext(p) == p || strip_notebook_ext(p).len() < p.len(),
{
    if has_extension(p) {
        lemma_ext_dot_bound(p);
        let d = ext_dot(p)->0;
        assert(without_extension(p) == p.take(d));
        assert(p.take(d).len() == d);
    }
}

proof fn lemma_last_index_concat(x: Seq<char>, y: Seq<char>, c: char)
    ensures
        last_index_of(x + y, c) == (match last_index_of(y, c) {
            Some(i) => Some(x.len() + i),
            None => last_index_of(x, c),
        }),
    decreases y.len(),
{
    if y.len() == 0 {
        assert(x + y == x);
    } else {
        assert((x + y).drop_last() == x + y.drop_last());
        assert((x + y).last() == y.last());
        lemma_last_index_concat(x, y.drop_last(), c);
    }
}

/// The directory part that `join(a, b)` puts in front of `b`.
pub open spec fn join_dir(a: Seq<char>, b: Seq<char>) -> Seq<char> {
    if b.len() > 0 && b[0] == '/' {
        Seq::empty()
    } else if a.len() == 0 || a.last() == '/' {
        a
    } else {
        a + seq!['/']
    }
}

/// `join(a, b)` is `b` behind a directory part that is empty or ends with a separator.
pub proof fn lemma_join_dir(a: Seq<char>, b: Seq<char>)
    ensures
        join(a, b) == join_dir(a, b) + b,
        join_dir(a, b).len() == 0 || join_dir(a, b).last() == '/',
{
    if b.len() > 0 && b[0] == '/' {
        assert(Seq::<char>::empty() + b == b);
    }
}

/// Behind a directory part, a path keeps its file name, its extension, and what the
/// notebook and extension operations do to it.
pub proof fn lemma_behind_dir(x: Seq<char>, b: Seq<char>)
    requires
        x.len() == 0 || x.last() == '/',
    ensures
        name_start(x + b) == x.len() + name_start(b),
        file_name(x + b) == file_name(b),
        has_extension(x + b) == has_extension(b),
        extension(x + b) == extension(b),
        without_extension(x + b) == x + without_extension(b),
        is_notebook(x + b) == is_notebook(b),
        strip_notebook_ext(x + b) == x + strip_notebook_ext(b),
        forall|e: Seq<char>| #[trigger] with_extension(x + b, e) == x + with_extension(b, e),
{
    let p = x + b;
    lemma_last_index_concat(x, b, '/');
    lemma_last_index_bound(b, '/');
    if last_index_of(b, '/') is None && x.len() > 0 {
        assert(last_index_of(x, '/') == Some(x.len() - 1));
    }
    assert(name_start(p) == x.len() + name_start(b));
    assert(file_name(p) =~= file_name(b));
    if has_extension(b) {
        lemma_ext_dot_bound(b);
        let d = ext_dot(b)->0;
        assert(ext_dot(p) == Some(x.len() + d));
        assert(p.skip(x.len() + d + 1) =~= b.skip(d + 1));
        assert(p.take(x.len() + d) =~= x + b.take(d));
    } else {
        assert(ext_dot(p) is None);
    }
    assert forall|e: Seq<char>| #[trigger] with_extension(x + b, e) == x + with_extension(b, e) by {
        if file_name(b).len() != 0 && e.len() != 0 {
            assert(x + without_extension(b) + seq!['.'] + e =~= x + (without_extension(b) + seq!['.'] + e));
        }
    }
}

} // verus!
