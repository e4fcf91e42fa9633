//! A model of slash-separated paths, and the directory-distance penalty
//! derived from it.
//!
//! A path is a sequence of characters; `/` separates segments.  The normal
//! components of a path are its non-empty segments other than `.` and `..`.
//! A path has a parent directory whenever it contains any character besides
//! the separator; the parent's components are the path's normal components
//! without the final one (the file's own name).

use vstd::prelude::*;

verus! {

broadcast use vstd::slice::group_slice_axioms;

/// A segment that counts as a normal path component: non-empty and neither
/// the current-directory nor the parent-directory token.
pub open spec fn is_normal_segment(seg: Seq<char>) -> bool {
    seg.len() > 0 && seg != seq!['.'] && seg != seq!['.', '.']
}

/// Left-to-right accumulation of the normal components of `s`, carrying the
/// segment read so far in `cur` and the components already complete in `acc`.
pub open spec fn normal_components_go(s: Seq<char>, cur: Seq<char>, acc: Seq<Seq<char>>) -> Seq<
    Seq<char>,
>
    decreases s.len(),
{
    if s.len() == 0 {
        if is_normal_segment(cur) {
            acc.push(cur)
        } else {
            acc
        }
    } else if s[0] == '/' {
        normal_components_go(
            s.drop_first(),
            Seq::empty(),
            if is_normal_segment(cur) {
                acc.push(cur)
            } else {
                acc
            },
        )
    } else {
        normal_components_go(s.drop_first(), cur.push(s[0]), acc)
    }
}

/// The normal components of a path, in order.
pub open spec fn normal_components(s: Seq<char>) -> Seq<Seq<char>> {
    normal_components_go(s, Seq::empty(), Seq::empty())
}

proof fn lemma_go_segments_normal(s: Seq<char>, cur: Seq<char>, acc: Seq<Seq<char>>)
    requires
        forall|i: int| 0 <= i < acc.len() ==> is_normal_segment(#[trigger] acc[i]),
    ensures
        forall|i: int|
            0 <= i < normal_components_go(s, cur, acc).len() ==> is_normal_segment(
                #[trigger] normal_components_go(s, cur, acc)[i],
            ),
    decreases s.len(),
{
    if is_normal_segment(cur) {
        assert(forall|i: int|
            0 <= i < acc.push(cur).len() ==> is_normal_segment(#[trigger] acc.push(cur)[i])) by {
            assert(forall|i: int| 0 <= i < acc.len() ==> acc.push(cur)[i] == acc[i]);
            assert(acc.push(cur)[acc.len() as int] == cur);
        }
    }
    if s.len() == 0 {
        if is_normal_segment(cur) {
            assert(normal_components_go(s, cur, acc) == acc.push(cur));
        } else {
            assert(normal_components_go(s, cur, acc) == acc);
        }
    } else if s[0] == '/' {
        let acc2 = if is_normal_segment(cur) {
            acc.push(cur)
        } else {
            acc
        };
        lemma_go_segments_normal(s.drop_first(), Seq::empty(), acc2);
        assert(normal_components_go(s, cur, acc) == normal_components_go(
            s.drop_first(),
            Seq::empty(),
            acc2,
        ));
    } else {
        lemma_go_segments_normal(s.drop_first(), cur.push(s[0]), acc);
        assert(normal_components_go(s, cur, acc) == normal_components_go(
            s.drop_first(),
            cur.push(s[0]),
            acc,
        ));
    }
}

/// Every normal component is a normal segment, in particular non-empty.
pub proof fn lemma_normal_components_normal(s: Seq<char>)
    ensures
        forall|i: int|
            0 <= i < normal_components(s).len() ==> is_normal_segment(
                #[trigger] normal_components(s)[i],
            ),
{
    lemma_go_segments_normal(s, Seq::empty(), Seq::empty());
}

/// A path has a parent directory unless it is empty or made of separators
/// only.
pub open spec fn has_parent(s: Seq<char>) -> bool {
    exists|i: int| 0 <= i < s.len() && s[i] != '/'
}

/// The normal components of a path's parent directory: all its normal
/// components but the last.
pub open spec fn dir_components(s: Seq<char>) -> Seq<Seq<char>> {
    let cs = normal_components(s);
    if cs.len() == 0 {
        cs
    } else {
        cs.drop_last()
    }
}

/// Length of the longest common prefix of two component sequences.
pub open spec fn common_prefix_len(a: Seq<Seq<char>>, b: Seq<Seq<char>>) -> int
    decreases a.len(),
{
    if a.len() == 0 || b.len() == 0 {
        0
    } else if a[0] == b[0] {
        1 + common_prefix_len(a.drop_first(), b.drop_first())
    } else {
        0
    }
}

/// Levels separating two directories: steps up from the first to the common
/// ancestor plus steps down to the second.
pub open spec fn directory_distance(a: Seq<Seq<char>>, b: Seq<Seq<char>>) -> int {
    let c = common_prefix_len(a, b);
    (a.len() - c) + (b.len() - c)
}

/// Penalty for two directories `d` levels apart: `d` times the per-level
/// penalty, with `d` capped at 10 (which caps the magnitude at ten per-level
/// penalties, keeping the sign).
pub open spec fn components_penalty(a: Seq<Seq<char>>, b: Seq<Seq<char>>, p: int) -> int {
    let d = directory_distance(a, b);
    if d == 0 {
        0
    } else if d > 10 {
        10 * p
    } else {
        d * p
    }
}

/// The directory-distance penalty of a candidate path against an optional
/// current file: zero without a current file, or when either path has no
/// parent directory, or when the two parent directories coincide.
pub open spec fn directory_distance_penalty(
    current: Option<Seq<char>>,
    candidate: Seq<char>,
    p: int,
) -> int {
    match current {
        None => 0,
        Some(cur) => {
            if !has_parent(cur) || !has_parent(candidate) {
                0
            } else {
                components_penalty(dir_components(cur), dir_components(candidate), p)
            }
        },
    }
}

pub open spec fn view_opt_str(o: Option<&str>) -> Option<Seq<char>> {
    match o {
        Some(s) => Some(s@),
        None => None,
    }
}

pub proof fn lemma_common_prefix_len_symmetric(a: Seq<Seq<char>>, b: Seq<Seq<char>>)
    ensures
        common_prefix_len(a, b) == common_prefix_len(b, a),
    decreases a.len(),
{
    if a.len() > 0 && b.len() > 0 && a[0] == b[0] {
        lemma_common_prefix_len_symmetric(a.drop_first(), b.drop_first());
    }
}

pub proof fn lemma_common_prefix_len_self(a: Seq<Seq<char>>)
    ensures
        common_prefix_len(a, a) == a.len(),
    decreases a.len(),
{
    if a.len() > 0 {
        lemma_common_prefix_len_self(a.drop_first());
    }
}

/// A file is no distance from itself: against itself as the current file,
/// every path has penalty zero.
pub proof fn lemma_distance_penalty_self(path: Seq<char>, p: int)
    ensures
        directory_distance_penalty(Some(path), path, p) == 0,
{
    if has_parent(path) {
        lemma_common_prefix_len_self(dir_components(path));
    }
}

/// The distance penalty is symmetric in the two paths.
pub proof fn lemma_distance_penalty_symmetric(a: Seq<char>, b: Seq<char>, p: int)
    ensures
        directory_distance_penalty(Some(a), b, p) == directory_distance_penalty(Some(b), a, p),
{
    lemma_common_prefix_len_symmetric(dir_components(a), dir_components(b));
}

/// Characterises the common prefix length by its first point of difference.
proof fn lemma_common_prefix_len_is(a: Seq<Seq<char>>, b: Seq<Seq<char>>, c: int)
    requires
        0 <= c <= a.len(),
        c <= b.len(),
        forall|k: int| 0 <= k < c ==> a[k] == b[k],
        c == a.len() || c == b.len() || a[c] != b[c],
    ensures
        common_prefix_len(a, b) == c,
    decreases c,
{
    if c == 0 {
    } else {
        let a1 = a.drop_first();
        let b1 = b.drop_first();
        assert(forall|k: int| 0 <= k < c - 1 ==> a1[k] == b1[k]);
        lemma_common_prefix_len_is(a1, b1, c - 1);
    }
}

/// Decides `is_normal_segment` for a string.
fn check_normal_segment(seg: &str) -> (r: bool)
    ensures
        r == is_normal_segment(seg@),
{
    let len = seg.unicode_len();
    if len == 0 {
        return false;
    }
    if len == 1 && seg.get_char(0) == '.' {
        proof {
            assert(seg@ =~= seq!['.']);
        }
        return false;
    }
    if len == 2 && seg.get_char(0) == '.' && seg.get_char(1) == '.' {
        proof {
            assert(seg@ =~= seq!['.', '.']);
        }
        return false;
    }
    proof {
        if seg@ == seq!['.'] {
            assert(seg@.len() == 1 && seg@[0] == '.');
        }
        if seg@ == seq!['.', '.'] {
            assert(seg@.len() == 2 && seg@[0] == '.' && seg@[1] == '.');
        }
    }
    true
}

/// Splits a path into its normal components.
pub fn path_normal_components(s: &str) -> (r: Vec<String>)
    ensures
        r.deep_view() == normal_components(s@),
{
    let len = s.unicode_len();
    let mut r: Vec<String> = Vec::new();
    let mut seg_start: usize = 0;
    let mut i: usize = 0;
    proof {
        assert(s@.skip(0) =~= s@);
        assert(s@.subrange(0, 0) =~= Seq::<char>::empty());
        assert(r.deep_view() =~= Seq::<Seq<char>>::empty());
    }
    while i < len
        invariant
            len == s@.len(),
            seg_start <= i <= len,
            normal_components_go(
                s@.skip(i as int),
                s@.subrange(seg_start as int, i as int),
                r.deep_view(),
            ) == normal_components(s@),
        decreases len - i,
    {
        let c = s.get_char(i);
        proof {
            assert(s@.skip(i as int).drop_first() =~= s@.skip(i as int + 1));
            assert(s@.skip(i as int)[0] == s@[i as int]);
        }
        if c == '/' {
            let seg = s.substring_char(seg_start, i);
            if check_normal_segment(seg) {
                let ghost old_dv = r.deep_view();
                r.push(seg.to_owned());
                proof {
                    assert(r.deep_view() =~= old_dv.push(s@.subrange(
                        seg_start as int,
                        i as int,
                    )));
                }
            }
            seg_start = i + 1;
            proof {
                assert(s@.subrange(i as int + 1, i as int + 1) =~= Seq::<char>::empty());
            }
        } else {
            proof {
                assert(s@.subrange(seg_start as int, i as int + 1) =~= s@.subrange(
                    seg_start as int,
                    i as int,
                ).push(s@[i as int]));
            }
        }
        i = i + 1;
    }
    let seg = s.substring_char(seg_start, len);
    if check_normal_segment(seg) {
        let ghost old_dv = r.deep_view();
        r.push(seg.to_owned());
        proof {
            assert(r.deep_view() =~= old_dv.push(s@.subrange(seg_start as int, len as int)));
        }
    }
    proof {
        assert(s@.skip(len as int) =~= Seq::<char>::empty());
    }
    r
}

/// The normal components of the path's parent directory.
pub fn path_dir_components(s: &str) -> (r: Vec<String>)
    ensures
        r.deep_view() == dir_components(s@),
{
    let mut cs = path_normal_components(s);
    if cs.len() > 0 {
        let ghost old_dv = cs.deep_view();
        cs.pop();
        proof {
            assert(cs.deep_view() =~= old_dv.drop_last());
        }
    }
    cs
}

/// Whether the path has a parent directory: any character besides `/`.
pub fn path_has_parent(s: &str) -> (r: bool)
    ensures
        r == has_parent(s@),
{
    let len = s.unicode_len();
    let mut i: usize = 0;
    while i < len
        invariant
            len == s@.len(),
            i <= len,
            forall|k: int| 0 <= k < i ==> s@[k] == '/',
        decreases len - i,
    {
        if s.get_char(i) != '/' {
            return true;
        }
        i = i + 1;
    }
    false
}

/// The penalty for the distance between two directories given as component
/// lists, `p` per separating level, capped at ten levels.
pub fn components_distance_penalty(a: &[String], b: &[String], p: i32) -> (r: i32)
    requires
        -214748364 <= p <= 214748364,
    ensures
        r as int == components_penalty(a.deep_view(), b.deep_view(), p as int),
{
    let a_len = a.len();
    let b_len = b.len();
    let n: usize = if a_len < b_len {
        a_len
    } else {
        b_len
    };
    let mut c: usize = 0;
    let mut done = false;
    while !done
        invariant
            a_len == a@.len(),
            b_len == b@.len(),
            n <= a_len,
            n <= b_len,
            n == a_len || n == b_len,
            c <= n,
            forall|k: int| 0 <= k < c ==> a.deep_view()[k] == b.deep_view()[k],
            done ==> c == n || a.deep_view()[c as int] != b.deep_view()[c as int],
        decreases n - c + (if done {
            0int
        } else {
            1int
        }),
    {
        if c < n {
            if crate::text::str_eq(a[c].as_str(), b[c].as_str()) {
                c = c + 1;
            } else {
                done = true;
            }
        } else {
            done = true;
        }
    }
    proof {
        lemma_common_prefix_len_is(a.deep_view(), b.deep_view(), c as int);
    }
    let da = a_len - c;
    let db = b_len - c;
    if da == 0 && db == 0 {
        return 0;
    }
    let capped: i32 = if da >= 10 || db >= 10 || da + db > 10 {
        10
    } else {
        (da + db) as i32
    };
    proof {
        assert(-2147483640 <= capped * p <= 2147483640) by (nonlinear_arith)
            requires
                1 <= capped <= 10,
                -214748364 <= p <= 214748364,
        ;
    }
    capped * p
}

/// With no current file, or no parent directory on either side, the penalty
/// is zero; otherwise it is the per-level penalty times the number of levels
/// separating the two parent directories, capped at ten levels.
pub fn calculate_directory_distance_penalty(
    current_file: Option<&str>,
    candidate_path: &str,
    penalty_per_level: i32,
) -> (r: i32)
    requires
        -214748364 <= penalty_per_level <= 214748364,
    ensures
        r as int == directory_distance_penalty(
            view_opt_str(current_file),
            candidate_path@,
            penalty_per_level as int,
        ),
{
    match current_file {
        None => 0,
        Some(cur) => {
            if !path_has_parent(cur) || !path_has_parent(candidate_path) {
                return 0;
            }
            let cur_dirs = path_dir_components(cur);
            let cand_dirs = path_dir_components(candidate_path);
            components_distance_penalty(cur_dirs.as_slice(), cand_dirs.as_slice(), penalty_per_level)
        },
    }
}

/// Like `calculate_directory_distance_penalty`, with the current file's
/// parent directory already split into components.
pub fn calculate_directory_distance_penalty_optimized(
    current_directory_parts: &[String],
    candidate_path: &str,
    penalty_per_level: i32,
) -> (r: i32)
    requires
        -214748364 <= penalty_per_level <= 214748364,
    ensures
        r as int == (if has_parent(candidate_path@) {
            components_penalty(
                current_directory_parts.deep_view(),
                dir_components(candidate_path@),
                penalty_per_level as int,
            )
        } else {
            0
        }),
{
    if !path_has_parent(candidate_path) {
        return 0;
    }
    let cand_dirs = path_dir_components(candidate_path);
    components_distance_penalty(current_directory_parts, cand_dirs.as_slice(), penalty_per_level)
}

/// The path with its trailing separators removed.
pub open spec fn trim_trailing_seps(s: Seq<char>) -> Seq<char>
    decreases s.len(),
{
    if s.len() > 0 && s.last() == '/' {
        trim_trailing_seps(s.drop_last())
    } else {
        s
    }
}

/// Position of the rightmost separator, if any.
pub open spec fn last_sep_pos(s: Seq<char>) -> Option<int>
    decreases s.len(),
{
    if s.len() == 0 {
        None
    } else if s.last() == '/' {
        Some(s.len() - 1)
    } else {
        last_sep_pos(s.drop_last())
    }
}

/// Position of the rightmost dot that does not open the name, if any; a
/// leading dot marks a hidden file, not an extension.
pub open spec fn last_dot_pos(name: Seq<char>) -> Option<int>
    decreases name.len(),
{
    if name.len() <= 1 {
        None
    } else if name.last() == '.' {
        Some(name.len() - 1)
    } else {
        last_dot_pos(name.drop_last())
    }
}

/// The final file name of a path: its last normal component, or empty when
/// there is none.
pub open spec fn file_name_of(s: Seq<char>) -> Seq<char> {
    let cs = normal_components(s);
    if cs.len() == 0 {
        Seq::empty()
    } else {
        cs.last()
    }
}

/// The name without its extension: everything before the rightmost
/// non-leading dot, or the whole name if there is no such dot.
pub open spec fn stem_of(name: Seq<char>) -> Seq<char> {
    match last_dot_pos(name) {
        None => name,
        Some(k) => name.subrange(0, k),
    }
}

/// The extension of a name: everything after the rightmost non-leading dot,
/// or empty if there is no such dot.
pub open spec fn extension_of(name: Seq<char>) -> Seq<char> {
    match last_dot_pos(name) {
        None => Seq::empty(),
        Some(k) => name.subrange(k + 1, name.len() as int),
    }
}

/// The parent directory of a path, as a path: the text before the final
/// segment, with trailing separators removed; a bare root stays `/`, and a
/// parent that is empty or the current-directory token becomes empty.
pub open spec fn directory_of(s: Seq<char>) -> Seq<char> {
    let t = trim_trailing_seps(s);
    match last_sep_pos(t) {
        None => Seq::empty(),
        Some(k) => {
            let p = trim_trailing_seps(t.subrange(0, k));
            if p.len() == 0 {
                if t[0] == '/' {
                    seq!['/']
                } else {
                    Seq::empty()
                }
            } else if p == seq!['.'] {
                Seq::empty()
            } else {
                p
            }
        },
    }
}

proof fn lemma_trim_is(s: Seq<char>, e: int)
    requires
        0 <= e <= s.len(),
        forall|j: int| e <= j < s.len() ==> s[j] == '/',
        e == 0 || s[e - 1] != '/',
    ensures
        trim_trailing_seps(s) == s.subrange(0, e),
    decreases s.len(),
{
    if s.len() == e {
        assert(s.subrange(0, e) =~= s);
    } else {
        assert(s.last() == '/');
        lemma_trim_is(s.drop_last(), e);
        assert(s.drop_last().subrange(0, e) =~= s.subrange(0, e));
    }
}

proof fn lemma_last_sep_pos_at(t: Seq<char>, k: int)
    requires
        0 <= k < t.len(),
        t[k] == '/',
        forall|j: int| k < j < t.len() ==> t[j] != '/',
    ensures
        last_sep_pos(t) == Some(k),
    decreases t.len(),
{
    if t.len() - 1 == k {
    } else {
        lemma_last_sep_pos_at(t.drop_last(), k);
    }
}

proof fn lemma_last_sep_pos_none(t: Seq<char>)
    requires
        forall|j: int| 0 <= j < t.len() ==> t[j] != '/',
    ensures
        last_sep_pos(t) == None::<int>,
    decreases t.len(),
{
    if t.len() > 0 {
        lemma_last_sep_pos_none(t.drop_last());
    }
}

proof fn lemma_last_dot_pos_at(n: Seq<char>, k: int)
    requires
        1 <= k < n.len(),
        n[k] == '.',
        forall|j: int| k < j < n.len() ==> n[j] != '.',
    ensures
        last_dot_pos(n) == Some(k),
    decreases n.len(),
{
    if n.len() - 1 == k {
    } else {
        lemma_last_dot_pos_at(n.drop_last(), k);
    }
}

proof fn lemma_last_dot_pos_none(n: Seq<char>)
    requires
        forall|j: int| 1 <= j < n.len() ==> n[j] != '.',
    ensures
        last_dot_pos(n) == None::<int>,
    decreases n.len(),
{
    if n.len() > 1 {
        lemma_last_dot_pos_none(n.drop_last());
    }
}

/// Index at which the trailing run of separators begins.
fn scan_trim_end(s: &str) -> (e: usize)
    ensures
        e <= s@.len(),
        trim_trailing_seps(s@) == s@.subrange(0, e as int),
        e == 0 || s@[e - 1] != '/',
        forall|j: int| e <= j < s@.len() ==> s@[j] == '/',
{
    let len = s.unicode_len();
    let mut e = len;
    let mut done = false;
    while !done
        invariant
            len == s@.len(),
            e <= len,
            forall|j: int| e <= j < s@.len() ==> s@[j] == '/',
            done ==> e == 0 || s@[e - 1] != '/',
        decreases e + (if done {
            0int
        } else {
            1int
        }),
    {
        if e == 0 {
            done = true;
        } else if s.get_char(e - 1) == '/' {
            e = e - 1;
        } else {
            done = true;
        }
    }
    proof {
        lemma_trim_is(s@, e as int);
    }
    e
}

/// The parent directory of the path, as a string.
pub fn path_directory(s: &str) -> (r: String)
    ensures
        r@ == directory_of(s@),
{
    let e = scan_trim_end(s);
    let ghost t = s@.subrange(0, e as int);
    if e == 0 {
        proof {
            assert(t.len() == 0);
        }
        return String::new();
    }
    // look for the rightmost separator within the trimmed path
    let mut k = e;
    let mut found = false;
    while !found && k > 0
        invariant
            e <= s@.len(),
            t == s@.subrange(0, e as int),
            t.len() == e,
            k <= e,
            found ==> k < e && t[k as int] == '/' && (forall|j: int| k < j < e ==> t[j] != '/'),
            !found ==> forall|j: int| k <= j < e ==> t[j] != '/',
        decreases k + (if found {
            0int
        } else {
            1int
        }),
    {
        if s.get_char(k - 1) == '/' {
            k = k - 1;
            found = true;
        } else {
            k = k - 1;
        }
    }
    if !found {
        proof {
            lemma_last_sep_pos_none(t);
        }
        return String::new();
    }
    proof {
        assert(forall|j: int| k < j < t.len() ==> t[j] != '/');
        lemma_last_sep_pos_at(t, k as int);
    }
    let e2 = scan_trim_end(s.substring_char(0, k));
    let ghost p = trim_trailing_seps(t.subrange(0, k as int));
    proof {
        assert(s@.subrange(0, k as int).subrange(0, e2 as int) =~= s@.subrange(0, e2 as int));
        assert(t.subrange(0, k as int) =~= s@.subrange(0, k as int));
    }
    if e2 == 0 {
        if s.get_char(0) == '/' {
            proof {
                reveal_strlit("/");
                assert("/"@ =~= seq!['/']);
            }
            return String::from_str("/");
        } else {
            return String::new();
        }
    }
    if e2 == 1 && s.get_char(0) == '.' {
        proof {
            assert(p =~= seq!['.']);
        }
        return String::new();
    }
    proof {
        if p == seq!['.'] {
            assert(p.len() == 1 && p[0] == '.');
        }
    }
    let r = s.substring_char(0, e2).to_owned();
    proof {
        assert(r@ =~= p);
    }
    r
}

/// The file name of the path: its last normal component, or empty.
pub fn path_file_name(s: &str) -> (r: String)
    ensures
        r@ == file_name_of(s@),
{
    let mut cs = path_normal_components(s);
    match cs.pop() {
        Some(name) => {
            proof {
                assert(name@ == normal_components(s@).last());
            }
            name
        },
        None => String::new(),
    }
}

/// The name before its rightmost non-leading dot, or the whole name.
pub fn name_stem(name: &str) -> (r: String)
    ensures
        r@ == stem_of(name@),
{
    let len = name.unicode_len();
    let mut k = len;
    while k > 1
        invariant
            len == name@.len(),
            1 <= k <= len || (k == len && len <= 1),
            k <= len,
            forall|j: int| k <= j < len ==> name@[j] != '.',
        decreases k,
    {
        if name.get_char(k - 1) == '.' {
            proof {
                lemma_last_dot_pos_at(name@, k - 1);
            }
            let r = name.substring_char(0, k - 1).to_owned();
            return r;
        }
        k = k - 1;
    }
    proof {
        lemma_last_dot_pos_none(name@);
    }
    name.to_owned()
}

/// The name after its rightmost non-leading dot, or empty.
pub fn name_extension(name: &str) -> (r: String)
    ensures
        r@ == extension_of(name@),
{
    let len = name.unicode_len();
    let mut k = len;
    while k > 1
        invariant
            len == name@.len(),
            k <= len,
            forall|j: int| k <= j < len ==> name@[j] != '.',
        decreases k,
    {
        if name.get_char(k - 1) == '.' {
            proof {
                lemma_last_dot_pos_at(name@, k - 1);
            }
            let r = name.substring_char(k, len).to_owned();
            return r;
        }
        k = k - 1;
    }
    proof {
        lemma_last_dot_pos_none(name@);
    }
    String::new()
}

} // verus!
