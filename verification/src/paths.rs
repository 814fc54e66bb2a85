//! Path strings: splitting a path into its parent and last name, and
//! normalizing paths with `.` and `..` segments.
use vstd::prelude::*;
use vstd::string::*;

verus! {

/// `p` with its trailing slashes removed.
pub open spec fn trim_trailing_slashes(p: Seq<char>) -> Seq<char>
    decreases p.len(),
{
    if p.len() > 0 && p.last() == '/' {
        trim_trailing_slashes(p.drop_last())
    } else {
        p
    }
}

/// Position of the last `/` of `p`.
pub open spec fn last_slash(p: Seq<char>) -> Option<int>
    decreases p.len(),
{
    if p.len() == 0 {
        None
    } else if p.last() == '/' {
        Some(p.len() - 1)
    } else {
        last_slash(p.drop_last())
    }
}

/// The parent directory and the last name of a path: trailing slashes are
/// dropped, the text before the last `/` is the parent (`/` when empty or
/// absent) and the text after it is the name.
pub open spec fn split_path_spec(p: Seq<char>) -> (Seq<char>, Seq<char>) {
    let t = trim_trailing_slashes(p);
    match last_slash(t) {
        Some(pos) => (
            if pos == 0 {
                seq!['/']
            } else {
                t.subrange(0, pos)
            },
            t.subrange(pos + 1, t.len() as int),
        ),
        None => (seq!['/'], t),
    }
}

/// A `String` holding `/`.
fn root_string() -> (s: String)
    ensures
        s@ == seq!['/'],
{
    proof {
        reveal_strlit("/");
    }
    String::from_str("/")
}

/// Splits `path` into its parent directory and its last name.
pub fn split_path(path: &str) -> (r: (String, String))
    ensures
        (r.0@, r.1@) == split_path_spec(path@),
{
    let len = path.unicode_len();
    let mut n = len;
    assert(path@.subrange(0, len as int) =~= path@);
    while n > 0 && path.get_char(n - 1) == '/'
        invariant
            n <= len,
            len == path@.len(),
            trim_trailing_slashes(path@) == trim_trailing_slashes(path@.subrange(0, n as int)),
        decreases n,
    {
        assert(path@.subrange(0, n as int).drop_last() =~= path@.subrange(0, n - 1));
        n = n - 1;
    }
    let ghost t = path@.subrange(0, n as int);
    assert(trim_trailing_slashes(t) == t);
    let mut k = n;
    assert(t.subrange(0, n as int) =~= t);
    while k > 0 && path.get_char(k - 1) != '/'
        invariant
            k <= n <= len,
            len == path@.len(),
            t == path@.subrange(0, n as int),
            last_slash(t) == last_slash(t.subrange(0, k as int)),
        decreases k,
    {
        assert(t.subrange(0, k as int).drop_last() =~= t.subrange(0, k - 1));
        k = k - 1;
    }
    if k == 0 {
        assert(t.subrange(0, 0) =~= Seq::<char>::empty());
        let name = String::from_str(path.substring_char(0, n));
        (root_string(), name)
    } else {
        assert(t.subrange(k as int, n as int) =~= path@.subrange(k as int, n as int));
        let name = String::from_str(path.substring_char(k, n));
        if k == 1 {
            (root_string(), name)
        } else {
            assert(t.subrange(0, k - 1) =~= path@.subrange(0, k - 1));
            (String::from_str(path.substring_char(0, k - 1)), name)
        }
    }
}

/// Splits `path` into its parent directory and its last name.
pub fn split_parent_child(path: &str) -> (r: (String, String))
    ensures
        (r.0@, r.1@) == split_path_spec(path@),
{
    split_path(path)
}

/// The `/`-separated segments of `p`, empty ones included.
pub open spec fn segments(p: Seq<char>) -> Seq<Seq<char>>
    decreases p.len(),
{
    if p.len() == 0 {
        seq![Seq::empty()]
    } else {
        let s = segments(p.drop_last());
        if p.last() == '/' {
            s.push(Seq::empty())
        } else {
            s.update(s.len() - 1, s.last().push(p.last()))
        }
    }
}

/// A path has at least one segment.
pub proof fn lemma_segments_nonempty(p: Seq<char>)
    ensures
        segments(p).len() >= 1,
    decreases p.len(),
{
    if p.len() > 0 {
        lemma_segments_nonempty(p.drop_last());
    }
}

/// The directory stack after one more segment: empty segments and `.` are
/// skipped, `..` drops the last directory (if any), other names are pushed.
pub open spec fn dot_step(stack: Seq<Seq<char>>, seg: Seq<char>) -> Seq<Seq<char>> {
    if seg.len() == 0 || seg == seq!['.'] {
        stack
    } else if seg == seq!['.', '.'] {
        if stack.len() > 0 {
            stack.drop_last()
        } else {
            stack
        }
    } else {
        stack.push(seg)
    }
}

/// The directory stack that the segments `segs` leave.
pub open spec fn dot_stack(segs: Seq<Seq<char>>) -> Seq<Seq<char>>
    decreases segs.len(),
{
    if segs.len() == 0 {
        Seq::empty()
    } else {
        dot_step(dot_stack(segs.drop_last()), segs.last())
    }
}

/// `/` followed by each name of `stack`, separated by `/`.
pub open spec fn join_abs(stack: Seq<Seq<char>>) -> Seq<char>
    decreases stack.len(),
{
    if stack.len() == 0 {
        Seq::empty()
    } else {
        join_abs(stack.drop_last()) + seq!['/'] + stack.last()
    }
}

/// The absolute path that `p` denotes once `.`, `..` and empty segments are
/// resolved; `/` when nothing is left.
pub open spec fn normalize_spec(p: Seq<char>) -> Seq<char> {
    let stack = dot_stack(segments(p));
    if stack.len() == 0 {
        seq!['/']
    } else {
        join_abs(stack)
    }
}

/// The directory stack of `path`.
fn dir_stack(path: &str) -> (stack: Vec<String>)
    ensures
        stack.deep_view() == dot_stack(segments(path@)),
{
    let n = path.unicode_len();
    let mut stack: Vec<String> = Vec::new();
    let mut start: usize = 0;
    let mut i: usize = 0;
    proof {
        assert(path@.subrange(0, 0) =~= Seq::<char>::empty());
        assert(path@.subrange(0, 0) =~= path@.subrange(0, 0));
    }
    while i < n
        invariant
            n == path@.len(),
            start <= i <= n,
            segments(path@.subrange(0, i as int)).len() >= 1,
            segments(path@.subrange(0, i as int)).last() == path@.subrange(start as int, i as int),
            stack.deep_view() == dot_stack(segments(path@.subrange(0, i as int)).drop_last()),
        decreases n - i,
    {
        let ghost segs = segments(path@.subrange(0, i as int));
        let c = path.get_char(i);
        assert(path@.subrange(0, i + 1).drop_last() =~= path@.subrange(0, i as int));
        assert(segs =~= segs.drop_last().push(segs.last()));
        if c == '/' {
            let seg = path.substring_char(start, i);
            let ghost before = stack.deep_view();
            push_segment(&mut stack, seg);
            start = i + 1;
            proof {
                assert(segments(path@.subrange(0, i + 1)).drop_last() =~= segs);
                assert(path@.subrange(start as int, i + 1) =~= Seq::<char>::empty());
            }
        } else {
            proof {
                assert(segments(path@.subrange(0, i + 1)).drop_last() =~= segs.drop_last());
                assert(path@.subrange(start as int, i + 1) =~= path@.subrange(start as int, i as int).push(c));
            }
        }
        i = i + 1;
    }
    let ghost segs = segments(path@.subrange(0, n as int));
    assert(path@.subrange(0, n as int) =~= path@);
    assert(segs =~= segs.drop_last().push(segs.last()));
    let seg = path.substring_char(start, n);
    push_segment(&mut stack, seg);
    stack
}

/// Applies one segment to the directory stack.
fn push_segment(stack: &mut Vec<String>, seg: &str)
    ensures
        final(stack).deep_view() == dot_step(old(stack).deep_view(), seg@),
{
    let len = seg.unicode_len();
    let is_dot = len == 1 && seg.get_char(0) == '.';
    let is_dotdot = len == 2 && seg.get_char(0) == '.' && seg.get_char(1) == '.';
    proof {
        if len == 1 {
            assert(is_dot == (seg@ == seq!['.'])) by {
                if seg@ == seq!['.'] {
                    assert(seg@[0] == '.');
                }
                if is_dot {
                    assert(seg@ =~= seq!['.']);
                }
            }
        } else {
            assert(seg@ != seq!['.']) by {
                if seg@ == seq!['.'] {
                    assert(seg@.len() == 1);
                }
            }
        }
        if len == 2 {
            assert(is_dotdot == (seg@ == seq!['.', '.'])) by {
                if seg@ == seq!['.', '.'] {
                    assert(seg@[0] == '.' && seg@[1] == '.');
                }
                if is_dotdot {
                    assert(seg@ =~= seq!['.', '.']);
                }
            }
        } else {
            assert(seg@ != seq!['.', '.']) by {
                if seg@ == seq!['.', '.'] {
                    assert(seg@.len() == 2);
                }
            }
        }
    }
    if len == 0 || is_dot {
    } else if is_dotdot {
        if stack.len() > 0 {
            let ghost before = stack.deep_view();
            stack.pop();
            assert(stack.deep_view() =~= before.drop_last());
        }
    } else {
        let ghost before = stack.deep_view();
        stack.push(String::from_str(seg));
        assert(stack.deep_view() =~= before.push(seg@));
    }
}

/// `/` followed by the names of `stack`, separated by `/`.
fn join_stack(stack: &Vec<String>) -> (s: String)
    ensures
        s@ == join_abs(stack.deep_view()),
{
    proof {
        reveal_strlit("/");
        reveal_strlit("");
    }
    let mut out = String::from_str("");
    let mut k: usize = 0;
    while k < stack.len()
        invariant
            k <= stack@.len(),
            out@ == join_abs(stack.deep_view().subrange(0, k as int)),
        decreases stack@.len() - k,
    {
        let ghost before = out@;
        proof {
            assert(stack.deep_view().subrange(0, k + 1).drop_last() =~= stack.deep_view().subrange(0, k as int));
            assert(stack.deep_view()[k as int] == stack@[k as int]@);
        }
        proof {
            reveal_strlit("/");
            assert("/"@ =~= seq!['/']);
        }
        out.append("/");
        let item = stack[k].as_str();
        out.append(item);
        assert(item@ == stack.deep_view()[k as int]);
        assert(out@ =~= before + seq!['/'] + stack.deep_view().subrange(0, k + 1).last());
        k = k + 1;
    }
    assert(stack.deep_view().subrange(0, stack@.len() as int) =~= stack.deep_view());
    out
}

/// Resolves `.`, `..` and empty segments of `path`.
pub fn normalize_path(path: &str) -> (s: String)
    ensures
        s@ == normalize_spec(path@),
{
    let stack = dir_stack(path);
    if stack.len() == 0 {
        root_string()
    } else {
        join_stack(&stack)
    }
}

/// `p` starts with `/`.
pub open spec fn is_absolute(p: Seq<char>) -> bool {
    p.len() > 0 && p[0] == '/'
}

/// The path `path` denotes when the current directory is `cwd`: an absolute
/// path is normalized as it is; a relative one is appended to `cwd` (with a
/// `/` between unless `cwd` ends with one) and then normalized.
pub open spec fn relative_spec(cwd: Seq<char>, path: Seq<char>) -> Seq<char> {
    if is_absolute(path) {
        normalize_spec(path)
    } else if cwd.len() > 0 && cwd.last() == '/' {
        normalize_spec(cwd + path)
    } else {
        normalize_spec(cwd + seq!['/'] + path)
    }
}

/// Resolves `path` against the current directory `cwd`.
pub fn resolve_relative_path(cwd: &str, path: &str) -> (s: String)
    ensures
        s@ == relative_spec(cwd@, path@),
{
    if path.unicode_len() > 0 && path.get_char(0) == '/' {
        return normalize_path(path);
    }
    let n = cwd.unicode_len();
    let mut base = String::from_str(cwd);
    let ends_with_slash = n > 0 && cwd.get_char(n - 1) == '/';
    proof {
        reveal_strlit("/");
    }
    if !ends_with_slash {
        base.append("/");
    }
    base.append(path);
    proof {
        if ends_with_slash {
            assert(base@ =~= cwd@ + path@);
        } else {
            assert(base@ =~= cwd@ + seq!['/'] + path@);
        }
    }
    normalize_path(base.as_str())
}

/// The path `arg` denotes from the directory `cwd`: an absolute path as it
/// is, a relative one after `cwd` (nothing before the `/` when `cwd` is
/// the root), normalized.
pub open spec fn absolute_spec(cwd: Seq<char>, arg: Seq<char>) -> Seq<char> {
    if is_absolute(arg) {
        normalize_spec(arg)
    } else if cwd == seq!['/'] {
        normalize_spec(seq!['/'] + arg)
    } else {
        normalize_spec(cwd + seq!['/'] + arg)
    }
}

/// Resolves a shell argument against the current directory.
pub fn resolve_absolute_path(cwd: &str, arg: &str) -> (s: String)
    ensures
        s@ == absolute_spec(cwd@, arg@),
{
    if arg.unicode_len() > 0 && arg.get_char(0) == '/' {
        return normalize_path(arg);
    }
    let cwd_is_root = cwd.unicode_len() == 1 && cwd.get_char(0) == '/';
    proof {
        reveal_strlit("/");
        reveal_strlit("");
        if cwd_is_root {
            assert(cwd@ =~= seq!['/']);
        }
    }
    let mut raw = if cwd_is_root {
        String::from_str("")
    } else {
        String::from_str(cwd)
    };
    raw.append("/");
    raw.append(arg);
    proof {
        if cwd_is_root {
            assert(raw@ =~= seq!['/'] + arg@);
        } else {
            assert(raw@ =~= cwd@ + seq!['/'] + arg@);
        }
    }
    normalize_path(raw.as_str())
}


/// A name that normalization keeps: nonempty, without `/`, and neither
/// `.` nor `..`.
pub open spec fn proper_name(x: Seq<char>) -> bool {
    &&& x.len() > 0
    &&& forall|k: int| 0 <= k < x.len() ==> x[k] != '/'
    &&& x != seq!['.']
    &&& x != seq!['.', '.']
}

/// Every name of `s` is proper.
pub open spec fn all_proper(s: Seq<Seq<char>>) -> bool {
    forall|i: int| 0 <= i < s.len() ==> proper_name(#[trigger] s[i])
}

/// Characters other than `/` extend the last segment.
proof fn lemma_segments_plain(p: Seq<char>, x: Seq<char>)
    requires
        forall|k: int| 0 <= k < x.len() ==> x[k] != '/',
    ensures
        segments(p + x) == segments(p).update(segments(p).len() - 1, segments(p).last() + x),
    decreases x.len(),
{
    lemma_segments_nonempty(p);
    if x.len() == 0 {
        assert(p + x =~= p);
        assert(segments(p).last() + x =~= segments(p).last());
        assert(segments(p).update(segments(p).len() - 1, segments(p).last()) =~= segments(p));
    } else {
        lemma_segments_plain(p, x.drop_last());
        assert((p + x).drop_last() =~= p + x.drop_last());
        assert((segments(p).last() + x.drop_last()).push(x.last()) =~= segments(p).last() + x);
        assert(segments(p + x) =~= segments(p).update(segments(p).len() - 1, segments(p).last() + x));
    }
}

/// The segments of a joined stack of proper names: an empty one, then the
/// names.
proof fn lemma_segments_join(st: Seq<Seq<char>>)
    requires
        all_proper(st),
    ensures
        segments(join_abs(st)) == seq![Seq::<char>::empty()] + st,
    decreases st.len(),
{
    if st.len() == 0 {
        assert(segments(Seq::<char>::empty()) == seq![Seq::<char>::empty()]);
        assert(seq![Seq::<char>::empty()] + st =~= seq![Seq::<char>::empty()]);
    } else {
        let q = join_abs(st.drop_last());
        let x = st.last();
        assert(all_proper(st.drop_last()));
        lemma_segments_join(st.drop_last());
        assert(proper_name(st[st.len() - 1]));
        let qs = q + seq!['/'];
        assert(qs.drop_last() =~= q);
        assert(segments(qs) == segments(q).push(Seq::empty()));
        lemma_segments_plain(qs, x);
        assert(join_abs(st) =~= qs + x);
        assert(Seq::<char>::empty() + x =~= x);
        assert(segments(join_abs(st)) =~= seq![Seq::<char>::empty()] + st);
    }
}

/// A lone empty segment leaves no directory.
proof fn lemma_dot_stack_empty_segment()
    ensures
        dot_stack(seq![Seq::<char>::empty()]) == Seq::<Seq<char>>::empty(),
{
    let e = seq![Seq::<char>::empty()];
    assert(e.drop_last() =~= Seq::<Seq<char>>::empty());
    assert(dot_stack(Seq::<Seq<char>>::empty()) == Seq::<Seq<char>>::empty());
    assert(e.last() == Seq::<char>::empty());
}

/// Following an empty segment and then proper names rebuilds those names.
proof fn lemma_dot_stack_proper(st: Seq<Seq<char>>)
    requires
        all_proper(st),
    ensures
        dot_stack(seq![Seq::<char>::empty()] + st) == st,
    decreases st.len(),
{
    if st.len() == 0 {
        let e = seq![Seq::<char>::empty()];
        assert(e + st =~= e);
        lemma_dot_stack_empty_segment();
    } else {
        assert(all_proper(st.drop_last()));
        lemma_dot_stack_proper(st.drop_last());
        let segs = seq![Seq::<char>::empty()] + st;
        assert(segs.drop_last() =~= seq![Seq::<char>::empty()] + st.drop_last());
        assert(segs.last() == st.last());
        assert(proper_name(st[st.len() - 1]));
        assert(st.last().len() > 0);
        assert(st.drop_last().push(st.last()) =~= st);
    }
}

/// The segments of any path contain no `/`.
proof fn lemma_segments_no_slash(p: Seq<char>)
    ensures
        forall|i: int, k: int|
            0 <= i < segments(p).len() && 0 <= k < segments(p)[i].len() ==> #[trigger] segments(p)[i][k]
                != '/',
    decreases p.len(),
{
    if p.len() > 0 {
        lemma_segments_no_slash(p.drop_last());
        lemma_segments_nonempty(p.drop_last());
    }
}

/// The stack that any list of segments without `/` leaves holds proper
/// names only.
proof fn lemma_dot_stack_all_proper(segs: Seq<Seq<char>>)
    requires
        forall|i: int, k: int| 0 <= i < segs.len() && 0 <= k < segs[i].len() ==> #[trigger] segs[i][k] != '/',
    ensures
        all_proper(dot_stack(segs)),
    decreases segs.len(),
{
    if segs.len() > 0 {
        assert forall|i: int, k: int|
            0 <= i < segs.drop_last().len() && 0 <= k < segs.drop_last()[i].len() implies #[trigger] segs.drop_last()[i][k]
            != '/' by {
            assert(segs.drop_last()[i] == segs[i]);
        }
        lemma_dot_stack_all_proper(segs.drop_last());
        let st = dot_stack(segs.drop_last());
        let x = segs.last();
        assert forall|k: int| 0 <= k < x.len() implies x[k] != '/' by {
            assert(segs[segs.len() - 1][k] != '/');
        }
        if !(x.len() == 0 || x == seq!['.']) && !(x == seq!['.', '.']) {
            assert forall|i: int| 0 <= i < st.push(x).len() implies proper_name(#[trigger] st.push(x)[i]) by {
                if i < st.len() {
                    assert(st.push(x)[i] == st[i]);
                }
            }
        } else if x == seq!['.', '.'] && st.len() > 0 {
            assert forall|i: int| 0 <= i < st.drop_last().len() implies proper_name(#[trigger] st.drop_last()[i]) by {
                assert(st.drop_last()[i] == st[i]);
            }
        }
    }
}

/// A joined nonempty stack of proper names starts with `/` and does not end
/// with one.
proof fn lemma_join_ends(st: Seq<Seq<char>>)
    requires
        all_proper(st),
        st.len() > 0,
    ensures
        join_abs(st).len() > 0,
        join_abs(st)[0] == '/',
        join_abs(st).last() != '/',
    decreases st.len(),
{
    let x = st.last();
    assert(proper_name(st[st.len() - 1]));
    let q = join_abs(st.drop_last());
    assert(join_abs(st) == q + seq!['/'] + x);
    assert((q + seq!['/'] + x).last() == x.last());
    if st.len() > 1 {
        assert(all_proper(st.drop_last()));
        lemma_join_ends(st.drop_last());
        assert((q + seq!['/'] + x)[0] == q[0]);
    } else {
        assert(q.len() == 0);
        assert((q + seq!['/'] + x)[0] == '/');
    }
}

/// A normalized path is `/` or starts with `/`, does not end with `/` and
/// has only proper names after its leading `/`; normalizing it again
/// changes nothing.
pub proof fn law_normalize_idempotent(p: Seq<char>)
    ensures
        ({
            let q = normalize_spec(p);
            &&& q == seq!['/'] || (q[0] == '/' && q.last() != '/' && segments(q)[0].len() == 0
                && all_proper(segments(q).drop_first()))
            &&& normalize_spec(q) == q
        }),
{
    lemma_segments_no_slash(p);
    lemma_dot_stack_all_proper(segments(p));
    let st = dot_stack(segments(p));
    if st.len() == 0 {
        let r = seq!['/'];
        assert(r.drop_last() =~= Seq::<char>::empty());
        assert(segments(Seq::<char>::empty()) == seq![Seq::<char>::empty()]);
        assert(segments(r) == seq![Seq::<char>::empty(), Seq::<char>::empty()]);
        let segs = segments(r);
        assert(segs.drop_last() =~= seq![Seq::<char>::empty()]);
        assert(seq![Seq::<char>::empty()].drop_last() =~= Seq::<Seq<char>>::empty());
        lemma_dot_stack_empty_segment();
        assert(segs.last() == Seq::<char>::empty());
        assert(dot_stack(segs) == Seq::<Seq<char>>::empty());
    } else {
        lemma_segments_join(st);
        lemma_dot_stack_proper(st);
        lemma_join_ends(st);
        assert((seq![Seq::<char>::empty()] + st).drop_first() =~= st);
    }
}


/// The last `/` of `p` is a `/`, and none follows it.
proof fn lemma_last_slash(p: Seq<char>)
    ensures
        last_slash(p) matches Some(pos) ==> (0 <= pos < p.len() && p[pos] == '/' && forall|k: int|
            pos < k < p.len() ==> p[k] != '/'),
        last_slash(p) is None ==> forall|k: int| 0 <= k < p.len() ==> p[k] != '/',
    decreases p.len(),
{
    if p.len() > 0 && p.last() != '/' {
        let q = p.drop_last();
        lemma_last_slash(q);
        assert forall|k: int| 0 <= k < q.len() implies p[k] == q[k] by {}
        assert(p[p.len() - 1] == p.last());
    }
}

/// Splitting a path that holds a `/` loses nothing: the parent, a `/`
/// (unless the parent is the root itself) and the name give back the path
/// without its trailing slashes, and the name holds no `/`.
pub proof fn law_split_reassembles(p: Seq<char>)
    ensures
        ({
            let t = trim_trailing_slashes(p);
            let (parent, name) = split_path_spec(p);
            &&& forall|k: int| 0 <= k < name.len() ==> name[k] != '/'
            &&& last_slash(t) matches Some(pos) ==> if pos == 0 {
                parent == seq!['/'] && parent + name == t
            } else {
                parent + seq!['/'] + name == t
            }
            &&& last_slash(t) is None ==> parent == seq!['/'] && name == t
        }),
{
    let t = trim_trailing_slashes(p);
    lemma_last_slash(t);
    if let Some(pos) = last_slash(t) {
        let name = t.subrange(pos + 1, t.len() as int);
        if pos == 0 {
            assert(seq!['/'] + name =~= t);
        } else {
            assert(t.subrange(0, pos) + seq!['/'] + name =~= t);
        }
    }
}


/// A path made of proper names after `/` is already normalized.
pub proof fn lemma_normalize_join(st: Seq<Seq<char>>)
    requires
        all_proper(st),
        st.len() > 0,
    ensures
        normalize_spec(join_abs(st)) == join_abs(st),
{
    lemma_segments_join(st);
    lemma_dot_stack_proper(st);
}


/// After a `/` followed by characters other than `/`, the last `/` is that
/// one.
proof fn lemma_last_slash_plain(q: Seq<char>, x: Seq<char>)
    requires
        forall|k: int| 0 <= k < x.len() ==> x[k] != '/',
    ensures
        last_slash(q + seq!['/'] + x) == Some(q.len() as int),
    decreases x.len(),
{
    if x.len() == 0 {
        assert(q + seq!['/'] + x =~= q.push('/'));
        assert(q.push('/').last() == '/');
    } else {
        lemma_last_slash_plain(q, x.drop_last());
        assert((q + seq!['/'] + x).drop_last() =~= q + seq!['/'] + x.drop_last());
        assert((q + seq!['/'] + x).last() == x.last());
    }
}

/// A normalized path other than `/` splits into a normalized parent and a
/// proper last name that rebuild it.
pub proof fn law_split_normalized(p: Seq<char>)
    requires
        normalize_spec(p) == p,
        p != seq!['/'],
    ensures
        ({
            let (parent, name) = split_path_spec(p);
            &&& proper_name(name)
            &&& normalize_spec(parent) == parent
            &&& (if parent == seq!['/'] {
                seq!['/'] + name
            } else {
                parent + seq!['/'] + name
            }) == p
        }),
{
    lemma_segments_no_slash(p);
    lemma_dot_stack_all_proper(segments(p));
    let st = dot_stack(segments(p));
    assert(st.len() > 0);
    let st1 = st.drop_last();
    let x = st.last();
    assert(proper_name(st[st.len() - 1]));
    assert(all_proper(st1));
    let q = join_abs(st1);
    assert(p == q + seq!['/'] + x);
    lemma_join_ends(st);
    assert(trim_trailing_slashes(p) == p);
    lemma_last_slash_plain(q, x);
    assert((q + seq!['/'] + x).subrange(q.len() + 1int, p.len() as int) =~= x);
    if st1.len() == 0 {
        assert(q.len() == 0);
        let e = Seq::<char>::empty();
        assert(segments(e) == seq![Seq::<char>::empty()]);
        lemma_dot_stack_empty_segment();
        assert(normalize_spec(e) == seq!['/']);
        law_normalize_idempotent(e);
        assert(seq!['/'] + x =~= p);
    } else {
        assert(p.subrange(0, q.len() as int) =~= q);
        lemma_normalize_join(st1);
        assert(st1[st1.len() - 1].len() > 0);
        assert(q.len() >= 2);
        assert(q != seq!['/']);
    }
}

} // verus!
