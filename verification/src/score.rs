//! The scorer: matches a query against the files of a snapshot and attaches
//! a composite score to every candidate.
//!
//! Queries shorter than two characters skip matching and score purely on
//! frecency.  Longer queries go through the external approximate matcher;
//! each returned base score is then composed with a frecency boost, the
//! directory-distance penalty against the current file, and a
//! filename-structural bonus.

use vstd::prelude::*;

use crate::git_status::is_modified_bits;
use crate::path_util::{directory_distance_penalty, calculate_directory_distance_penalty};
use crate::text::{seq_contains, seq_eq_fold, str_contains, str_eq, str_eq_ignore_ascii_case};
use crate::types::{FileItem, FileItemView, MatchType, Score, ScoringContext};

verus! {

/// Per-level penalty used for directory distance when a search builds its
/// own context.
pub const DEFAULT_DISTANCE_PENALTY: i32 = -2;

/// An integer clipped into the range of `i32`.
pub open spec fn clip_i32(x: int) -> int {
    if x > i32::MAX {
        i32::MAX as int
    } else if x < i32::MIN {
        i32::MIN as int
    } else {
        x
    }
}

/// Saturating addition in `i32` range.
pub open spec fn sat_add(a: int, b: int) -> int {
    clip_i32(a + b)
}

/// Saturating multiplication in `i32` range.
pub open spec fn sat_mul(a: int, b: int) -> int {
    clip_i32(a * b)
}

/// Division by 100 rounding toward zero.
pub open spec fn div100_trunc(x: int) -> int {
    if x >= 0 {
        x / 100
    } else {
        -((-x) / 100)
    }
}

fn sat_add_i32(a: i32, b: i32) -> (r: i32)
    ensures
        r as int == sat_add(a as int, b as int),
{
    let s: i64 = a as i64 + b as i64;
    if s > i32::MAX as i64 {
        i32::MAX
    } else if s < i32::MIN as i64 {
        i32::MIN
    } else {
        s as i32
    }
}

fn sat_mul_i32(a: i32, b: i32) -> (r: i32)
    ensures
        r as int == sat_mul(a as int, b as int),
{
    proof {
        assert((a as int) * (b as int) <= 0x4000_0000_0000_0000int && (a as int) * (b as int)
            >= -0x4000_0000_0000_0000int) by (nonlinear_arith)
            requires
                -0x8000_0000 <= a as int <= 0x7fff_ffff,
                -0x8000_0000 <= b as int <= 0x7fff_ffff,
        ;
    }
    let p: i64 = (a as i64) * (b as i64);
    if p > i32::MAX as i64 {
        i32::MAX
    } else if p < i32::MIN as i64 {
        i32::MIN
    } else {
        p as i32
    }
}

fn div100_trunc_i32(x: i32) -> (r: i32)
    ensures
        r as int == div100_trunc(x as int),
{
    if x >= 0 {
        let q: u64 = (x as u64) / 100;
        proof {
            assert(q <= x as u64) by {
                assert((x as u64) / 100 <= x as u64) by (nonlinear_arith);
            }
        }
        q as i32
    } else {
        let m: u64 = (-(x as i64)) as u64;
        let q: u64 = m / 100;
        proof {
            assert(q <= m) by {
                assert(m / 100 <= m) by (nonlinear_arith);
            }
        }
        -(q as i32)
    }
}

/// The truncation of an `i64` frecency value into `i32`, as the scorer
/// consumes it.
fn frecency_as_i32(x: i64) -> (r: i32)
    ensures
        r == x as i32,
{
    #[verifier::truncate]
    (x as i32)
}

/// A conventional module or package entry-point file name.
pub open spec fn is_entry_point_name(name: Seq<char>) -> bool {
    ||| name == "mod.rs"@
    ||| name == "lib.rs"@
    ||| name == "main.rs"@
    ||| name == "index.js"@
    ||| name == "index.jsx"@
    ||| name == "index.ts"@
    ||| name == "index.tsx"@
    ||| name == "index.mjs"@
    ||| name == "index.cjs"@
    ||| name == "index.vue"@
    ||| name == "__init__.py"@
    ||| name == "__main__.py"@
    ||| name == "main.go"@
    ||| name == "main.c"@
    ||| name == "index.php"@
    ||| name == "main.rb"@
    ||| name == "index.rb"@
}

/// Whether the file name is a conventional entry point.
pub fn is_special_entry_point_file(filename: &str) -> (r: bool)
    ensures
        r == is_entry_point_name(filename@),
{
    str_eq(filename, "mod.rs") || str_eq(filename, "lib.rs") || str_eq(filename, "main.rs")
        || str_eq(filename, "index.js") || str_eq(filename, "index.jsx") || str_eq(
        filename,
        "index.ts",
    ) || str_eq(filename, "index.tsx") || str_eq(filename, "index.mjs") || str_eq(
        filename,
        "index.cjs",
    ) || str_eq(filename, "index.vue") || str_eq(filename, "__init__.py") || str_eq(
        filename,
        "__main__.py",
    ) || str_eq(filename, "main.go") || str_eq(filename, "main.c") || str_eq(
        filename,
        "index.php",
    ) || str_eq(filename, "main.rb") || str_eq(filename, "index.rb")
}

/// What `str::to_lowercase` returns for these characters.
pub uninterp spec fn lower_of(s: Seq<char>) -> Seq<char>;

/// Relies on str::to_lowercase: the lowercase form depends on the
/// characters alone, and an empty string stays empty.
#[verifier::external_body]
fn lowercase(s: &str) -> (r: String)
    ensures
        r@ == lower_of(s@),
        s@.len() == 0 ==> r@.len() == 0,
{
    s.to_lowercase()
}

/// The filename bonus of a candidate: the bonus value, the reported match
/// type, and whether the entry-point branch fired.  Evaluated in order:
/// case-insensitive equality with the query, then substring containment of
/// the lowercased query, then the entry-point set.
pub open spec fn filename_bonus_value(query: Seq<char>, filename: Seq<char>, base: int) -> int {
    if seq_eq_fold(filename, query) {
        base / 5 * 2
    } else if seq_contains(lower_of(filename), lower_of(query)) {
        base / 5
    } else if is_entry_point_name(filename) {
        base * 18 / 100
    } else {
        0
    }
}

pub open spec fn filename_bonus_type(query: Seq<char>, filename: Seq<char>) -> MatchType {
    if seq_eq_fold(filename, query) {
        MatchType::ExactFilename
    } else if seq_contains(lower_of(filename), lower_of(query)) {
        MatchType::FuzzyFilename
    } else {
        MatchType::FuzzyPath
    }
}

pub open spec fn filename_bonus_special(query: Seq<char>, filename: Seq<char>) -> bool {
    &&& !seq_eq_fold(filename, query)
    &&& !seq_contains(lower_of(filename), lower_of(query))
    &&& is_entry_point_name(filename)
}

/// Computes the filename bonus, its match type, and whether it came from
/// the entry-point branch.
pub fn calculate_filename_bonus(query: &str, filename: &str, base_score: i32) -> (r: (
    i32,
    MatchType,
    bool,
))
    requires
        0 <= base_score <= 65535,
    ensures
        r.0 as int == filename_bonus_value(query@, filename@, base_score as int),
        r.1 == filename_bonus_type(query@, filename@),
        r.2 == filename_bonus_special(query@, filename@),
{
    if str_eq_ignore_ascii_case(filename, query) {
        (base_score / 5 * 2, MatchType::ExactFilename, false)
    } else {
        let lf = lowercase(filename);
        let lq = lowercase(query);
        if str_contains(lf.as_str(), lq.as_str()) {
            (base_score / 5, MatchType::FuzzyFilename, false)
        } else if is_special_entry_point_file(filename) {
            (base_score * 18 / 100, MatchType::FuzzyPath, true)
        } else {
            (0, MatchType::FuzzyPath, false)
        }
    }
}

/// The view of an optional current-file path.
pub open spec fn opt_string_view(o: Option<String>) -> Option<Seq<char>> {
    match o {
        Some(s) => Some(s@),
        None => None,
    }
}

/// The frecency-only boost of a file: access frecency plus four times
/// modification frecency, saturating, on the values truncated to `i32`.
pub open spec fn frecency_boost_of(f: FileItemView) -> int {
    sat_add(
        f.access_frecency_score as i32 as int,
        sat_mul(f.modification_frecency_score as i32 as int, 4),
    )
}

/// The demotion of the currently open file in its own picker: minus 150
/// when its git status is a modification kind, else minus 300; other files
/// are untouched.
pub open spec fn current_file_demotion(f: FileItemView, current: Option<Seq<char>>) -> int {
    match current {
        None => 0,
        Some(cur) => {
            if f.relative_path == cur {
                if f.git_status is Some && is_modified_bits(f.git_status->0) {
                    -150
                } else {
                    -300
                }
            } else {
                0
            }
        },
    }
}

/// The score a file earns on the frecency-only path.
pub open spec fn frecency_entry_ok(
    f: FileItemView,
    current: Option<Seq<char>>,
    p: int,
    s: Score,
) -> bool {
    &&& s.base_score == 0
    &&& s.filename_bonus == 0
    &&& s.special_filename_bonus == 0
    &&& s.relation_bonus == 0
    &&& s.match_type == MatchType::Frecency
    &&& s.frecency_boost as int == frecency_boost_of(f)
    &&& s.distance_penalty as int == directory_distance_penalty(current, f.relative_path, p)
    &&& s.total as int == sat_add(
        sat_add(frecency_boost_of(f), s.distance_penalty as int),
        current_file_demotion(f, current),
    )
}

/// The score a file earns on the matcher path, from the matcher's base
/// score.
pub open spec fn match_entry_ok(
    f: FileItemView,
    query: Seq<char>,
    current: Option<Seq<char>>,
    p: int,
    s: Score,
) -> bool {
    let base = s.base_score as int;
    &&& 0 <= base <= 65535
    &&& s.frecency_boost as int == div100_trunc(
        sat_mul(base, f.total_frecency_score as i32 as int),
    )
    &&& s.distance_penalty as int == directory_distance_penalty(current, f.relative_path, p)
    &&& s.filename_bonus as int == filename_bonus_value(query, f.file_name, base)
    &&& s.special_filename_bonus as int == (if filename_bonus_special(query, f.file_name) {
        filename_bonus_value(query, f.file_name, base)
    } else {
        0
    })
    &&& s.relation_bonus == 0
    &&& s.match_type == filename_bonus_type(query, f.file_name)
    &&& s.total as int == sat_add(
        sat_add(sat_add(base, s.frecency_boost as int), s.distance_penalty as int),
        s.filename_bonus as int,
    )
}

/// Converts an optional current-file reference for the distance penalty.
fn current_as_deref(current: &Option<String>) -> (r: Option<&str>)
    ensures
        crate::path_util::view_opt_str(r) == opt_string_view(*current),
{
    match current {
        Some(s) => Some(s.as_str()),
        None => None,
    }
}

/// Scores every file purely on frecency, in file order.
pub fn score_all_by_frecency(files: &Vec<FileItem>, context: &ScoringContext) -> (r: Vec<
    (usize, Score),
>)
    requires
        -214748364 <= context.directory_distance_penalty <= 214748364,
    ensures
        r@.len() == files@.len(),
        forall|i: int| 0 <= i < r@.len() ==> (#[trigger] r@[i]).0 == i,
        forall|i: int|
            0 <= i < r@.len() ==> frecency_entry_ok(
                files.deep_view()[i],
                opt_string_view(context.current_file),
                context.directory_distance_penalty as int,
                (#[trigger] r@[i]).1,
            ),
{
    let mut r: Vec<(usize, Score)> = Vec::new();
    let mut i: usize = 0;
    while i < files.len()
        invariant
            i <= files@.len(),
            r@.len() == i,
            -214748364 <= context.directory_distance_penalty <= 214748364,
            forall|k: int| 0 <= k < i ==> (#[trigger] r@[k]).0 == k,
            forall|k: int|
                0 <= k < i ==> frecency_entry_ok(
                    files.deep_view()[k],
                    opt_string_view(context.current_file),
                    context.directory_distance_penalty as int,
                    (#[trigger] r@[k]).1,
                ),
        decreases files@.len() - i,
    {
        let f = &files[i];
        let access = frecency_as_i32(f.access_frecency_score);
        let modification = frecency_as_i32(f.modification_frecency_score);
        let boost = sat_add_i32(access, sat_mul_i32(modification, 4));
        let distance = calculate_directory_distance_penalty(
            current_as_deref(&context.current_file),
            f.relative_path.as_str(),
            context.directory_distance_penalty,
        );
        let demotion: i32 = match &context.current_file {
            Some(cur) => {
                if str_eq(f.relative_path.as_str(), cur.as_str()) {
                    let modified = match f.git_status {
                        Some(st) => crate::git_status::is_modified_status(st),
                        None => false,
                    };
                    if modified {
                        -150
                    } else {
                        -300
                    }
                } else {
                    0
                }
            },
            None => 0,
        };
        let total = sat_add_i32(sat_add_i32(boost, distance), demotion);
        let score = Score {
            total,
            base_score: 0,
            filename_bonus: 0,
            special_filename_bonus: 0,
            frecency_boost: boost,
            distance_penalty: distance,
            relation_bonus: 0,
            match_type: MatchType::Frecency,
        };
        r.push((i, score));
        i = i + 1;
    }
    r
}

/// The files' relative paths, in index order: the haystack handed to the
/// approximate matcher.
pub fn relative_paths_of(files: &Vec<FileItem>) -> (r: Vec<String>)
    ensures
        r.deep_view() == Seq::new(
            files.deep_view().len(),
            |i: int| files.deep_view()[i].relative_path,
        ),
{
    let mut r: Vec<String> = Vec::new();
    let mut i: usize = 0;
    while i < files.len()
        invariant
            i <= files@.len(),
            r@.len() == i,
            forall|k: int|
                0 <= k < i ==> #[trigger] r.deep_view()[k] == files.deep_view()[k].relative_path,
        decreases files@.len() - i,
    {
        let ghost prev = r.deep_view();
        r.push(files[i].relative_path.clone());
        proof {
            assert(r.deep_view() =~= prev.push(files.deep_view()[i as int].relative_path));
        }
        i = i + 1;
    }
    proof {
        assert(r.deep_view() =~= Seq::new(
            files.deep_view().len(),
            |i: int| files.deep_view()[i].relative_path,
        ));
    }
    r
}

/// Relies on neo_frizbee's `Matcher::match_list_parallel`: fuzzy-matches
/// the query against every haystack string with the given typo budget and
/// no result ordering, on up to `max_threads` threads, and hands back each
/// matching haystack's index with its score.  Which strings match and with
/// what score is the matcher's own affair; what is relied on is that the
/// indices are in bounds and that each haystack is considered once, so no
/// index repeats.
#[verifier::external_body]
fn match_list_parallel(
    query: &str,
    haystacks: &Vec<String>,
    max_typos: u16,
    max_threads: usize,
) -> (r: Vec<(usize, u16)>)
    requires
        haystacks@.len() <= u32::MAX,
    ensures
        forall|i: int| 0 <= i < r@.len() ==> (#[trigger] r@[i]).0 < haystacks@.len(),
        forall|i: int, j: int|
            0 <= i < j < r@.len() ==> (#[trigger] r@[i]).0 != (#[trigger] r@[j]).0,
{
    let config = neo_frizbee::Config::default().max_typos(Some(max_typos)).sort(
        neo_frizbee::SortStrategy::Unsorted,
    );
    let mut matcher = neo_frizbee::Matcher::new(query, &config);
    let matches = matcher.match_list_parallel(haystacks.as_slice(), max_threads);
    matches.into_iter().map(|m| (m.index as usize, m.score)).collect()
}

/// Composes the full score of every match the approximate matcher
/// returned, in match order.
pub fn score_matches(
    files: &Vec<FileItem>,
    matches: &Vec<(usize, u16)>,
    context: &ScoringContext,
) -> (r: Vec<(usize, Score)>)
    requires
        forall|i: int| 0 <= i < matches@.len() ==> (#[trigger] matches@[i]).0 < files@.len(),
        -214748364 <= context.directory_distance_penalty <= 214748364,
    ensures
        r@.len() == matches@.len(),
        forall|i: int|
            0 <= i < r@.len() ==> (#[trigger] r@[i]).0 == matches@[i].0 && r@[i].1.base_score
                == matches@[i].1,
        forall|i: int|
            0 <= i < r@.len() ==> match_entry_ok(
                files.deep_view()[(#[trigger] r@[i]).0 as int],
                context.query@,
                opt_string_view(context.current_file),
                context.directory_distance_penalty as int,
                r@[i].1,
            ),
{
    let mut r: Vec<(usize, Score)> = Vec::new();
    let mut t: usize = 0;
    while t < matches.len()
        invariant
            t <= matches@.len(),
            r@.len() == t,
            forall|i: int| 0 <= i < matches@.len() ==> (#[trigger] matches@[i]).0 < files@.len(),
            -214748364 <= context.directory_distance_penalty <= 214748364,
            forall|k: int|
                0 <= k < t ==> (#[trigger] r@[k]).0 == matches@[k].0 && r@[k].1.base_score
                    == matches@[k].1,
            forall|k: int|
                0 <= k < t ==> match_entry_ok(
                    files.deep_view()[(#[trigger] r@[k]).0 as int],
                    context.query@,
                    opt_string_view(context.current_file),
                    context.directory_distance_penalty as int,
                    r@[k].1,
                ),
        decreases matches@.len() - t,
    {
        let idx = matches[t].0;
        let base: i32 = matches[t].1 as i32;
        let f = &files[idx];
        let tf = frecency_as_i32(f.total_frecency_score);
        let frecency_boost = div100_trunc_i32(sat_mul_i32(base, tf));
        let distance = calculate_directory_distance_penalty(
            current_as_deref(&context.current_file),
            f.relative_path.as_str(),
            context.directory_distance_penalty,
        );
        let (filename_bonus, match_type, special) = calculate_filename_bonus(
            context.query.as_str(),
            f.file_name.as_str(),
            base,
        );
        let total = sat_add_i32(
            sat_add_i32(sat_add_i32(base, frecency_boost), distance),
            filename_bonus,
        );
        let score = Score {
            total,
            base_score: base,
            filename_bonus,
            special_filename_bonus: if special {
                filename_bonus
            } else {
                0
            },
            frecency_boost,
            distance_penalty: distance,
            relation_bonus: 0,
            match_type,
        };
        r.push((idx, score));
        t = t + 1;
    }
    r
}

/// The typo budget for a query of this character length: a quarter of it,
/// held between two and six.
pub open spec fn max_typos_for(len: int) -> u16 {
    if len / 4 < 2 {
        2
    } else if len / 4 > 6 {
        6
    } else {
        (len / 4) as u16
    }
}

/// Computes the typo budget from the query length.
pub fn compute_max_typos(query: &str) -> (r: u16)
    ensures
        r == max_typos_for(query@.len() as int),
{
    let len = query.unicode_len();
    let q = len / 4;
    if q < 2 {
        2
    } else if q > 6 {
        6
    } else {
        q as u16
    }
}

/// Matches the query against every file and scores the candidates: queries
/// shorter than two characters score every file on frecency alone; longer
/// queries score exactly the approximate matcher's matches.
pub fn match_and_score_files(files: &Vec<FileItem>, context: &ScoringContext) -> (r: Vec<
    (usize, Score),
>)
    requires
        files@.len() <= u32::MAX,
        -214748364 <= context.directory_distance_penalty <= 214748364,
    ensures
        context.query@.len() < 2 ==> {
            &&& r@.len() == files@.len()
            &&& forall|i: int| 0 <= i < r@.len() ==> (#[trigger] r@[i]).0 == i
            &&& forall|i: int|
                0 <= i < r@.len() ==> frecency_entry_ok(
                    files.deep_view()[i],
                    opt_string_view(context.current_file),
                    context.directory_distance_penalty as int,
                    (#[trigger] r@[i]).1,
                )
        },
        context.query@.len() >= 2 ==> {
            &&& forall|i: int| 0 <= i < r@.len() ==> (#[trigger] r@[i]).0 < files@.len()
            &&& forall|i: int|
                0 <= i < r@.len() ==> match_entry_ok(
                    files.deep_view()[(#[trigger] r@[i]).0 as int],
                    context.query@,
                    opt_string_view(context.current_file),
                    context.directory_distance_penalty as int,
                    r@[i].1,
                )
        },
        forall|i: int, j: int|
            0 <= i < j < r@.len() ==> (#[trigger] r@[i]).0 != (#[trigger] r@[j]).0,
{
    if context.query.as_str().unicode_len() < 2 {
        return score_all_by_frecency(files, context);
    }
    if files.len() == 0 {
        return Vec::new();
    }
    let haystacks = relative_paths_of(files);
    proof {
        assert(haystacks@.len() == haystacks.deep_view().len());
        assert(haystacks@.len() == files@.len());
    }
    let matches = match_list_parallel(
        context.query.as_str(),
        &haystacks,
        context.max_typos,
        context.max_threads,
    );
    score_matches(files, &matches, context)
}

} // verus!
