//! End-to-end repair of a Rust project: reading a failing test run,
//! producing a bounds-checked patch candidate and its unified diff.
use vstd::prelude::*;
use crate::error::HephaestusError;
use crate::digest::{blake3_digest, blake3_hash};
use crate::memory::genome_store::RepairGenome;
use crate::text::{owned, hex, hex_string, strs, 
    chars_of, contains, contains_str, extend_chars, extend_str, find, find_char, find_char_exec,
    find_chars, join, join_chars, lemma_find_from_bounds, lemma_find_from_skip, lines, lines_of,
    push_decimal, decimal, replace, replace_chars, replace_str, rfind_char, rfind_char_exec,
    seq_contains_chars, slice_of, split_whitespace_of, split_ws, starts_with, starts_with_str,
    string_of, trim, trim_chars, trim_start, trim_start_char, trim_start_chars,
    trim_start_matches_char, views,
};

verus! {

/// Report of a failed test run.
#[derive(Debug, Clone)]
pub struct FailureReport {
    pub failing_test: String,
    pub exit_code: Option<i32>,
    pub stderr: String,
    pub stdout: String,
    pub duration_ms: u64,
}

/// Patch candidate produced during repair.
#[derive(Debug, Clone)]
pub struct PatchCandidate {
    pub diff: String,
    pub patched_file_content: String,
    /// Path of the patched file, relative to the project.
    pub target_file: String,
    pub rationale: String,
}

/// Result of patch validation.
#[derive(Debug, Clone)]
pub struct ValidationReport {
    pub compiled: bool,
    pub clippy_passed: bool,
    pub tests_passed: bool,
    pub duration_ms: u64,
    pub stdout: String,
    pub stderr: String,
}

/// Full outcome of a project repair cycle.
#[derive(Debug, Clone)]
pub struct RepairCycleResult {
    pub success: bool,
    pub original_failure: FailureReport,
    pub patch: Option<PatchCandidate>,
    pub validation: Option<ValidationReport>,
    pub unified_diff: Option<String>,
    pub genome_hash: String,
}

pub struct ProjectRepairEngine;

// ------------------------------------------------------------ failing test

/// The second word of the first line that mentions both "FAILED" and
/// "test " and has at least two words.
pub open spec fn first_failed_test(ls: Seq<Seq<char>>) -> Option<Seq<char>>
    decreases ls.len(),
{
    if ls.len() == 0 {
        None
    } else {
        let l = ls[0];
        if contains(l, "FAILED"@) && contains(l, "test "@) && split_ws(l).len() >= 2 {
            Some(split_ws(l)[1])
        } else {
            first_failed_test(ls.drop_first())
        }
    }
}

/// The name of the failing test read from the output of `cargo test`.
pub open spec fn failing_test_name(stdout: Seq<char>, stderr: Seq<char>) -> Seq<char> {
    match first_failed_test(lines(stdout) + lines(stderr)) {
        Some(n) => n,
        None => "unknown_failing_test"@,
    }
}

/// Finds the failing test in the output of a test run: the second word of
/// the first line, stdout lines before stderr lines, that mentions "FAILED"
/// and "test ".
pub fn parse_failing_test_name(stdout: &str, stderr: &str) -> (r: String)
    ensures
        r@ == failing_test_name(stdout@, stderr@),
{
    let out_chars = chars_of(stdout);
    let err_chars = chars_of(stderr);
    let mut all = lines_of(out_chars.as_slice());
    let mut more = lines_of(err_chars.as_slice());
    let ghost first = all@;
    let ghost second = more@;
    all.append(&mut more);
    assert(views(all@) =~= views(first) + views(second));
    let ghost ls = views(all@);
    let mut i: usize = 0;
    assert(ls.skip(0) =~= ls);
    while i < all.len()
        invariant
            i <= all@.len(),
            ls == views(all@),
            ls == lines(stdout@) + lines(stderr@),
            first_failed_test(ls) == first_failed_test(ls.skip(i as int)),
        decreases all.len() - i,
    {
        let line = all[i].as_slice();
        assert(ls.skip(i as int)[0] == line@);
        if contains_str(line, "FAILED") && contains_str(line, "test ") {
            let parts = split_whitespace_of(line);
            if parts.len() >= 2 {
                assert(views(parts@)[1] == parts@[1]@);
                assert(first_failed_test(ls.skip(i as int)) == Some(split_ws(line@)[1]));
                return string_of(parts[1].as_slice());
            }
        }
        assert(ls.skip(i as int).drop_first() =~= ls.skip(i + 1));
        i = i + 1;
    }
    assert(ls.skip(i as int) =~= Seq::<Seq<char>>::empty());
    owned("unknown_failing_test")
}



// ------------------------------------------------------------ index patches

/// `v.get(i).copied()`.
pub open spec fn safe_get(var: Seq<char>, idx: Seq<char>) -> Seq<char> {
    var + ".get("@ + idx + ").copied()"@
}

/// A name with leading `&` and surrounding whitespace removed.
pub open spec fn clean_name(s: Seq<char>) -> Seq<char> {
    trim(trim_start_char(trim(s), '&'))
}

/// Where `Some(` first occurs in a line that wraps an index access in
/// `Some(...)`, and what lies between it and the last `)` after it: the
/// start of `Some(` and the inner text.
pub open spec fn some_wrapper(l: Seq<char>) -> Option<(int, Seq<char>)> {
    if contains(l, "Some("@) && contains(l, "["@) && contains(l, "]"@) {
        let open_some = find(l, "Some("@)->0;
        match rfind_char(l.skip(open_some), ')') {
            Some(close_paren) => Some((open_some, l.subrange(open_some + 5, open_some + close_paren))),
            None => None,
        }
    } else {
        None
    }
}

/// The `Some(...)` rewrite applies: the inner text has a `[` and a `]`.
pub open spec fn some_rewrite_applies(l: Seq<char>) -> bool {
    some_wrapper(l) matches Some((_, inner)) && find_char(inner, '[') is Some && find_char(
        inner,
        ']',
    ) is Some
}

/// The line that `patch_index_access` would reject by panicking: inside
/// `Some(...)` the first `]` comes before the first `[`.
pub open spec fn index_patch_panics(l: Seq<char>) -> bool {
    some_rewrite_applies(l) && {
        let inner = some_wrapper(l).unwrap().1;
        find_char(inner, ']')->0 < find_char(inner, '[')->0 + 1
    }
}

/// The rewrite of a line whose index access is wrapped in `Some(...)`:
/// `Some(v[i])` becomes `v.get(i).copied()`.
pub open spec fn some_rewrite(l: Seq<char>) -> Seq<char> {
    let inner = some_wrapper(l).unwrap().1;
    let ob = find_char(inner, '[')->0;
    let cb = find_char(inner, ']')->0;
    let var = clean_name(inner.take(ob));
    let idx = inner.subrange(ob + 1, cb);
    replace(l, "Some("@ + inner + ")"@, safe_get(var, idx))
}

/// The rewrite of a plain index access: `v[i]` becomes `v.get(i).copied()`,
/// where `v` is what precedes the first `[` and `i` what lies up to the
/// next `]`.
pub open spec fn bracket_rewrite(l: Seq<char>) -> Seq<char> {
    match find_char(l, '[') {
        Some(open) => match find_char(l.skip(open), ']') {
            Some(close) => {
                let var = clean_name(l.take(open));
                let idx = l.subrange(open + 1, open + close);
                replace(l, var + "["@ + idx + "]"@, safe_get(var, idx))
            },
            None => l,
        },
        None => l,
    }
}

/// What `patch_index_access` makes of a line.
pub open spec fn patch_index(l: Seq<char>) -> Seq<char> {
    if some_rewrite_applies(l) {
        some_rewrite(l)
    } else {
        bracket_rewrite(l)
    }
}

fn lit(s: &str) -> (v: Vec<char>)
    ensures
        v@ == s@,
{
    chars_of(s)
}

/// Rewrites a direct index access in a line of code into a bounds-checked
/// `get(..).copied()`.
pub fn patch_index_access(line: &str) -> (r: String)
    requires
        !index_patch_panics(line@),
    ensures
        r@ == patch_index(line@),
{
    let l = chars_of(line);
    let some_open = lit("Some(");
    let lb = lit("[");
    let rb = lit("]");
    if contains_str(l.as_slice(), "Some(") && contains_str(l.as_slice(), "[") && contains_str(
        l.as_slice(),
        "]",
    ) {
        if let Some(open_some) = find_chars(l.as_slice(), some_open.as_slice()) {
            proof {
                lemma_find_from_bounds(l@, "Some("@, 0);
            }
            let tail = slice_of(l.as_slice(), open_some, l.len());
            assert(tail@ =~= l@.skip(open_some as int));
            if let Some(close_paren) = rfind_char_exec(tail.as_slice(), ')') {
                proof {
                    reveal_strlit("Some(");
                    lemma_rfind_bounds(tail@, ')', tail@.len() as int);
                    assert(l@.subrange(open_some as int, open_some + 5) == "Some("@);
                    if close_paren < 5 {
                        assert(tail@[close_paren as int] == l@.subrange(open_some as int, open_some + 5)[close_paren as int]);
                        reveal_strlit("Some(");
                    }
                }
                let inner = slice_of(l.as_slice(), open_some + 5, open_some + close_paren);
                if let Some(open_bracket) = find_char_exec(inner.as_slice(), '[') {
                    if let Some(close_bracket) = find_char_exec(inner.as_slice(), ']') {
                        proof {
                            lemma_find_from_bounds(inner@, seq!['['], 0);
                            lemma_find_from_bounds(inner@, seq![']'], 0);
                        }
                        let var_name = trim_chars(slice_of(inner.as_slice(), 0, open_bracket).as_slice());
                        let idx_expr = slice_of(inner.as_slice(), open_bracket + 1, close_bracket);
                        let stripped = trim_start_matches_char(var_name.as_slice(), '&');
                        let clean_var = trim_chars(stripped.as_slice());
                        let mut safe: Vec<char> = Vec::new();
                        extend_chars(&mut safe, clean_var.as_slice());
                        extend_str(&mut safe, ".get(");
                        extend_chars(&mut safe, idx_expr.as_slice());
                        extend_str(&mut safe, ").copied()");
                        let mut pat: Vec<char> = Vec::new();
                        extend_str(&mut pat, "Some(");
                        extend_chars(&mut pat, inner.as_slice());
                        extend_str(&mut pat, ")");
                        proof {
                            reveal_strlit("Some(");
                        }
                        let out = replace_chars(l.as_slice(), pat.as_slice(), safe.as_slice());
                        return string_of(out.as_slice());
                    }
                }
            }
        }
    }
    if let Some(open) = find_char_exec(l.as_slice(), '[') {
        proof {
            lemma_find_from_bounds(l@, seq!['['], 0);
        }
        let rest = slice_of(l.as_slice(), open, l.len());
        assert(rest@ =~= l@.skip(open as int));
        if let Some(close) = find_char_exec(rest.as_slice(), ']') {
            proof {
                lemma_find_from_bounds(rest@, seq![']'], 0);
                assert(l@.subrange(open as int, open + 1) == seq!['[']);
                if close == 0 {
                    assert(rest@.subrange(0, 1) == seq![']']);
                    assert(rest@.subrange(0, 1)[0] == rest@[0]);
                    assert(rest@[0] == ']');
                    assert(l@.subrange(open as int, open + 1)[0] == '[');
                }
            }
            let close_idx = open + close;
            let target_var = trim_chars(slice_of(l.as_slice(), 0, open).as_slice());
            let index_expr = slice_of(l.as_slice(), open + 1, close_idx);
            let stripped = trim_start_matches_char(target_var.as_slice(), '&');
            let clean_var = trim_chars(stripped.as_slice());
            let mut pat: Vec<char> = Vec::new();
            extend_chars(&mut pat, clean_var.as_slice());
            extend_str(&mut pat, "[");
            extend_chars(&mut pat, index_expr.as_slice());
            extend_str(&mut pat, "]");
            let mut safe: Vec<char> = Vec::new();
            extend_chars(&mut safe, clean_var.as_slice());
            extend_str(&mut safe, ".get(");
            extend_chars(&mut safe, index_expr.as_slice());
            extend_str(&mut safe, ").copied()");
            proof {
                reveal_strlit("[");
            }
            let out = replace_chars(l.as_slice(), pat.as_slice(), safe.as_slice());
            return string_of(out.as_slice());
        }
    }
    string_of(l.as_slice())
}

pub proof fn lemma_rfind_bounds(s: Seq<char>, c: char, n: int)
    requires
        n <= s.len(),
    ensures
        crate::text::rfind_char_upto(s, c, n) matches Some(k) ==> 0 <= k < n && s[k] == c,
    decreases n,
{
    if n > 0 && s[n - 1] != c {
        lemma_rfind_bounds(s, c, n - 1);
    }
}


// ------------------------------------------------------------ patch candidate

/// A line the patcher considers: it indexes with `[...]` and is not a
/// comment, attribute, function header, `vec![` literal or slice literal.
pub open spec fn is_candidate_line(line: Seq<char>) -> bool {
    let t = trim_start(line);
    &&& contains(line, "["@)
    &&& contains(line, "]"@)
    &&& !starts_with(t, "//"@)
    &&& !starts_with(t, "#"@)
    &&& !starts_with(t, "pub fn"@)
    &&& !starts_with(t, "fn "@)
    &&& !contains(line, "vec!["@)
    &&& !contains(line, "&["@)
}

/// A line after patching.
pub open spec fn patched_line(line: Seq<char>) -> Seq<char> {
    if is_candidate_line(line) {
        patch_index(line)
    } else {
        line
    }
}

/// Some candidate line is changed by patching.
pub open spec fn any_line_patched(ls: Seq<Seq<char>>) -> bool {
    exists|i: int| 0 <= i < ls.len() && is_candidate_line(ls[i]) && patch_index(ls[i]) != ls[i]
}

/// No candidate line is one the patcher would reject.
pub open spec fn patchable(code: Seq<char>) -> bool {
    forall|i: int|
        0 <= i < lines(code).len() && is_candidate_line(#[trigger] lines(code)[i])
            ==> !index_patch_panics(lines(code)[i])
}

/// The fallback rewrites applied when no line changes.
pub open spec fn fallback_rewrite(code: Seq<char>) -> Seq<char> {
    replace(
        replace(
            replace(code, "arr[index]"@, "arr.get(index).copied().unwrap_or(0)"@),
            "vec[idx]"@,
            "vec.get(idx).copied()"@,
        ),
        "slice[i]"@,
        "slice.get(i).copied()"@,
    )
}

/// The patched file content: the lines patched one by one and joined by
/// newlines if any line changed, the fallback rewrites otherwise.
pub open spec fn patched_content(code: Seq<char>) -> Seq<char> {
    let ls = lines(code);
    if any_line_patched(ls) {
        join(ls.map_values(|l: Seq<char>| patched_line(l)), "\n"@)
    } else {
        fallback_rewrite(code)
    }
}

fn candidate_line_exec(line: &[char]) -> (b: bool)
    ensures
        b == is_candidate_line(line@),
{
    let trimmed = trim_start_chars(line);
    contains_str(line, "[") && contains_str(line, "]") && !starts_with_str(trimmed.as_slice(), "//")
        && !starts_with_str(trimmed.as_slice(), "#") && !starts_with_str(
        trimmed.as_slice(),
        "pub fn",
    ) && !starts_with_str(trimmed.as_slice(), "fn ") && !contains_str(line, "vec![")
        && !contains_str(line, "&[")
}

/// Whether `patch_index_access` would reject the line: inside `Some(...)`
/// its first `]` comes before its first `[`.
pub fn patch_would_panic(line: &str) -> (b: bool)
    ensures
        b == index_patch_panics(line@),
{
    let l = chars_of(line);
    let some_open = lit("Some(");
    if contains_str(l.as_slice(), "Some(") && contains_str(l.as_slice(), "[") && contains_str(
        l.as_slice(),
        "]",
    ) {
        if let Some(open_some) = find_chars(l.as_slice(), some_open.as_slice()) {
            proof {
                lemma_find_from_bounds(l@, "Some("@, 0);
            }
            let tail = slice_of(l.as_slice(), open_some, l.len());
            assert(tail@ =~= l@.skip(open_some as int));
            if let Some(close_paren) = rfind_char_exec(tail.as_slice(), ')') {
                proof {
                    reveal_strlit("Some(");
                    lemma_rfind_bounds(tail@, ')', tail@.len() as int);
                    assert(l@.subrange(open_some as int, open_some + 5) == "Some("@);
                    if close_paren < 5 {
                        assert(tail@[close_paren as int] == l@.subrange(open_some as int, open_some + 5)[close_paren as int]);
                        reveal_strlit("Some(");
                    }
                }
                let inner = slice_of(l.as_slice(), open_some + 5, open_some + close_paren);
                if let Some(open_bracket) = find_char_exec(inner.as_slice(), '[') {
                    if let Some(close_bracket) = find_char_exec(inner.as_slice(), ']') {
                        return close_bracket <= open_bracket;
                    }
                }
            }
        }
    }
    false
}

/// Whether every candidate line of the code can be patched.
pub fn is_patchable(code: &str) -> (b: bool)
    ensures
        b == patchable(code@),
{
    let c = chars_of(code);
    let ls = lines_of(c.as_slice());
    let ghost lv = views(ls@);
    let mut i: usize = 0;
    while i < ls.len()
        invariant
            i <= ls@.len(),
            lv == views(ls@),
            lv == lines(code@),
            forall|j: int|
                0 <= j < i && is_candidate_line(#[trigger] lv[j]) ==> !index_patch_panics(lv[j]),
        decreases ls.len() - i,
    {
        let line = ls[i].as_slice();
        assert(line@ == lv[i as int]);
        if candidate_line_exec(line) {
            let text = string_of(line);
            if patch_would_panic(text.as_str()) {
                return false;
            }
        }
        i = i + 1;
    }
    true
}

// ------------------------------------------------------------ unified diff

/// `-line` for every old line that the new text lacks, in old order.
pub open spec fn removed_lines(old: Seq<Seq<char>>, new: Seq<Seq<char>>) -> Seq<char>
    decreases old.len(),
{
    if old.len() == 0 {
        seq![]
    } else {
        let prev = removed_lines(old.drop_last(), new);
        if new.contains(old.last()) {
            prev
        } else {
            prev + "-"@ + old.last() + "\n"@
        }
    }
}

/// Every new line, marked `+` when the old text lacks it and ` ` otherwise.
pub open spec fn marked_new_lines(new: Seq<Seq<char>>, old: Seq<Seq<char>>) -> Seq<char>
    decreases new.len(),
{
    if new.len() == 0 {
        seq![]
    } else {
        let prev = marked_new_lines(new.drop_last(), old);
        let mark = if old.contains(new.last()) {
            " "@
        } else {
            "+"@
        };
        prev + mark + new.last() + "\n"@
    }
}

/// The simplified unified diff between two texts.
pub open spec fn unified_diff(old: Seq<char>, new: Seq<char>, path: Seq<char>) -> Seq<char> {
    let ol = lines(old);
    let nl = lines(new);
    "--- a/"@ + path + "\n"@ + "+++ b/"@ + path + "\n"@ + "@@ -1,"@ + decimal(ol.len()) + " +1,"@
        + decimal(nl.len()) + " @@\n"@ + removed_lines(ol, nl) + marked_new_lines(nl, ol)
}

fn generate_unified_diff(old_text: &str, new_text: &str, file_path: &str) -> (d: String)
    ensures
        d@ == unified_diff(old_text@, new_text@, file_path@),
{
    let oc = chars_of(old_text);
    let nc = chars_of(new_text);
    let old_lines = lines_of(oc.as_slice());
    let new_lines = lines_of(nc.as_slice());
    let ghost ol = views(old_lines@);
    let ghost nl = views(new_lines@);
    let mut d: Vec<char> = Vec::new();
    extend_str(&mut d, "--- a/");
    extend_str(&mut d, file_path);
    extend_str(&mut d, "\n");
    extend_str(&mut d, "+++ b/");
    extend_str(&mut d, file_path);
    extend_str(&mut d, "\n");
    extend_str(&mut d, "@@ -1,");
    push_decimal(&mut d, old_lines.len() as u64);
    extend_str(&mut d, " +1,");
    push_decimal(&mut d, new_lines.len() as u64);
    extend_str(&mut d, " @@\n");
    let ghost header = d@;
    let mut i: usize = 0;
    while i < old_lines.len()
        invariant
            i <= old_lines@.len(),
            ol == views(old_lines@),
            nl == views(new_lines@),
            d@ == header + removed_lines(ol.take(i as int), nl),
        decreases old_lines.len() - i,
    {
        if !seq_contains_chars(&new_lines, old_lines[i].as_slice()) {
            extend_str(&mut d, "-");
            extend_chars(&mut d, old_lines[i].as_slice());
            extend_str(&mut d, "\n");
        }
        proof {
            assert(ol.take(i + 1).drop_last() =~= ol.take(i as int));
            assert(ol.take(i + 1).last() == old_lines@[i as int]@);
        }
        i = i + 1;
        assert(d@ =~= header + removed_lines(ol.take(i as int), nl));
    }
    let ghost middle = d@;
    let mut j: usize = 0;
    while j < new_lines.len()
        invariant
            j <= new_lines@.len(),
            ol == views(old_lines@),
            nl == views(new_lines@),
            d@ == middle + marked_new_lines(nl.take(j as int), ol),
        decreases new_lines.len() - j,
    {
        if !seq_contains_chars(&old_lines, new_lines[j].as_slice()) {
            extend_str(&mut d, "+");
        } else {
            extend_str(&mut d, " ");
        }
        extend_chars(&mut d, new_lines[j].as_slice());
        extend_str(&mut d, "\n");
        proof {
            assert(nl.take(j + 1).drop_last() =~= nl.take(j as int));
            assert(nl.take(j + 1).last() == new_lines@[j as int]@);
        }
        j = j + 1;
        assert(d@ =~= middle + marked_new_lines(nl.take(j as int), ol));
    }
    proof {
        assert(ol.take(ol.len() as int) =~= ol);
        assert(nl.take(nl.len() as int) =~= nl);
    }
    let r = string_of(d.as_slice());
    assert(r@ =~= unified_diff(old_text@, new_text@, file_path@));
    r
}

/// The simplified unified diff between two texts: a header naming the file
/// and the line counts, then every old line missing from the new text marked
/// `-`, then every new line marked `+` if the old text lacks it and ` `
/// otherwise.
pub fn generate_unified_diff_pub(old_text: &str, new_text: &str, file_path: &str) -> (d: String)
    ensures
        d@ == unified_diff(old_text@, new_text@, file_path@),
        old_text@ == new_text@ ==> d@ == unchanged_diff(old_text@, file_path@),
{
    proof {
        lemma_same_text_diff(old_text@, file_path@);
    }
    generate_unified_diff(old_text, new_text, file_path)
}

/// Every line of a diff body kept: each marked ` `.
pub open spec fn kept_lines(ls: Seq<Seq<char>>) -> Seq<char>
    decreases ls.len(),
{
    if ls.len() == 0 {
        seq![]
    } else {
        kept_lines(ls.drop_last()) + " "@ + ls.last() + "\n"@
    }
}

proof fn lemma_line_chars(s: Seq<char>, i: int, k: int)
    requires
        0 <= i < lines(s).len(),
        0 <= k < lines(s)[i].len(),
    ensures
        s.contains(lines(s)[i][k]),
    decreases s.len(),
{
    let c = lines(s)[i][k];
    match find_char(s, '\n') {
        Some(n) => {
            crate::text::lemma_find_from_bounds(s, seq!['\n'], 0);
            assert(lines(s) == seq![crate::text::strip_cr(s.take(n))] + lines(s.skip(n + 1)));
            if i == 0 {
                assert(s[k] == c);
            } else {
                assert(lines(s)[i] == lines(s.skip(n + 1))[i - 1]);
                lemma_line_chars(s.skip(n + 1), i - 1, k);
                let j = choose|j: int| 0 <= j < s.skip(n + 1).len() && #[trigger] s.skip(n + 1)[j] == c;
                assert(s[n + 1 + j] == c);
            }
        },
        None => {
            assert(lines(s) == seq![s]);
            assert(s[k] == c);
        },
    }
}

proof fn lemma_no_bracket_found(line: Seq<char>)
    requires
        !line.contains('['),
    ensures
        !contains(line, "["@),
{
    reveal_strlit("[");
    crate::text::lemma_find_from_bounds(line, "["@, 0);
    if let Some(k) = find(line, "["@) {
        assert(line.subrange(k, k + 1) == "["@);
        assert(line[k] == line.subrange(k, k + 1)[0]);
    }
}

proof fn lemma_replace_absent(s: Seq<char>, p: Seq<char>, r: Seq<char>, i: int)
    requires
        0 <= i < p.len(),
        p[i] == '[',
        !s.contains('['),
    ensures
        replace(s, p, r) == s,
    decreases s.len(),
{
    if s.len() > 0 {
        if starts_with(s, p) {
            assert(s.subrange(0, p.len() as int)[i] == s[i]);
        }
        assert forall|j: int| 0 <= j < s.drop_first().len() implies s.drop_first()[j] != '[' by {
            assert(s.drop_first()[j] == s[j + 1]);
        }
        lemma_replace_absent(s.drop_first(), p, r, i);
        assert(seq![s[0]] + s.drop_first() =~= s);
    }
}

proof fn lemma_nothing_removed(old: Seq<Seq<char>>, new: Seq<Seq<char>>)
    requires
        forall|j: int| 0 <= j < old.len() ==> new.contains(#[trigger] old[j]),
    ensures
        removed_lines(old, new) == Seq::<char>::empty(),
    decreases old.len(),
{
    if old.len() > 0 {
        assert(new.contains(old[old.len() - 1]));
        assert forall|j: int| 0 <= j < old.drop_last().len() implies new.contains(#[trigger] old.drop_last()[j]) by {
            assert(old.drop_last()[j] == old[j]);
        }
        lemma_nothing_removed(old.drop_last(), new);
    }
}

proof fn lemma_all_kept(new: Seq<Seq<char>>, old: Seq<Seq<char>>)
    requires
        forall|j: int| 0 <= j < new.len() ==> old.contains(#[trigger] new[j]),
    ensures
        marked_new_lines(new, old) == kept_lines(new),
    decreases new.len(),
{
    if new.len() > 0 {
        assert(old.contains(new[new.len() - 1]));
        assert forall|j: int| 0 <= j < new.drop_last().len() implies old.contains(#[trigger] new.drop_last()[j]) by {
            assert(new.drop_last()[j] == new[j]);
        }
        lemma_all_kept(new.drop_last(), old);
    }
}

/// The diff of a text against itself: the header, then every line kept.
pub open spec fn unchanged_diff(text: Seq<char>, path: Seq<char>) -> Seq<char> {
    "--- a/"@ + path + "\n"@ + "+++ b/"@ + path + "\n"@ + "@@ -1,"@ + decimal(lines(text).len()) + " +1,"@
        + decimal(lines(text).len()) + " @@\n"@ + kept_lines(lines(text))
}

/// A text diffed against itself marks no line added or removed.
pub proof fn lemma_same_text_diff(text: Seq<char>, path: Seq<char>)
    ensures
        unified_diff(text, text, path) == unchanged_diff(text, path),
{
    let ls = lines(text);
    lemma_nothing_removed(ls, ls);
    lemma_all_kept(ls, ls);
}

/// Code without `[` holds no index access to patch: the patched content is
/// the code itself, and the diff of the patch is its header followed by
/// every line kept, none added or removed.
pub proof fn lemma_no_index_access_unchanged(code: Seq<char>, path: Seq<char>)
    requires
        !code.contains('['),
    ensures
        patched_content(code) == code,
        unified_diff(code, patched_content(code), path) == unchanged_diff(code, path),
{
    let ls = lines(code);
    assert forall|i: int| 0 <= i < ls.len() implies !is_candidate_line(#[trigger] ls[i]) by {
        assert forall|k: int| 0 <= k < ls[i].len() implies ls[i][k] != '[' by {
            lemma_line_chars(code, i, k);
        }
        lemma_no_bracket_found(ls[i]);
    }
    assert(!any_line_patched(ls));
    reveal_strlit("arr[index]");
    reveal_strlit("vec[idx]");
    reveal_strlit("slice[i]");
    lemma_replace_absent(code, "arr[index]"@, "arr.get(index).copied().unwrap_or(0)"@, 3);
    lemma_replace_absent(code, "vec[idx]"@, "vec.get(idx).copied()"@, 3);
    lemma_replace_absent(code, "slice[i]"@, "slice.get(i).copied()"@, 5);
    assert(fallback_rewrite(code) == code);
    lemma_same_text_diff(code, path);
}

impl ProjectRepairEngine {
    /// Generates a patch for index-out-of-bounds failures: every candidate
    /// line's index access is made bounds-checked; if no line changes, a
    /// few well-known patterns are rewritten instead.
    pub fn generate_patch_candidate(
        original_code: &str,
        target_file: &str,
        _failure: &FailureReport,
    ) -> (r: Result<PatchCandidate, HephaestusError>)
        requires
            patchable(original_code@),
        ensures
            r matches Ok(p) && p.patched_file_content@ == patched_content(original_code@)
                && p.diff@ == unified_diff(original_code@, p.patched_file_content@, target_file@)
                && p.target_file@ == target_file@
                && p.rationale@ == "Replaced direct index access with safe bounds-checked get() method"@,
            !original_code@.contains('[') ==> (r matches Ok(p) && p.patched_file_content@ == original_code@
                && p.diff@ == unchanged_diff(original_code@, target_file@)),
    {
        proof {
            if !original_code@.contains('[') {
                lemma_no_index_access_unchanged(original_code@, target_file@);
            }
        }
        let code = chars_of(original_code);
        let ls = lines_of(code.as_slice());
        let ghost lv = views(ls@);
        let mut patched_lines: Vec<Vec<char>> = Vec::new();
        let mut changed = false;
        let mut i: usize = 0;
        while i < ls.len()
            invariant
                i <= ls@.len(),
                lv == views(ls@),
                lv == lines(original_code@),
                patchable(original_code@),
                views(patched_lines@) == lv.take(i as int).map_values(|l: Seq<char>| patched_line(l)),
                changed == any_line_patched(lv.take(i as int)),
            decreases ls.len() - i,
        {
            let line = ls[i].as_slice();
            let ghost lsq = line@;
            assert(lsq == lv[i as int]);
            let trimmed = trim_start_chars(line);
            let candidate = contains_str(line, "[") && contains_str(line, "]") && !starts_with_str(
                trimmed.as_slice(),
                "//",
            ) && !starts_with_str(trimmed.as_slice(), "#") && !starts_with_str(
                trimmed.as_slice(),
                "pub fn",
            ) && !starts_with_str(trimmed.as_slice(), "fn ") && !contains_str(line, "vec![")
                && !contains_str(line, "&[");
            assert(candidate == is_candidate_line(lsq));
            let ghost before = patched_lines@;
            let mut this_changed = false;
            if candidate {
                let ls_str = string_of(line);
                let patched = patch_index_access(ls_str.as_str());
                let pc = chars_of(patched.as_str());
                if !crate::text::chars_eq(pc.as_slice(), line) {
                    this_changed = true;
                }
                assert(pc@ == patched_line(lsq));
                patched_lines.push(pc);
            } else {
                let same = slice_of(line, 0, line.len());
                assert(same@ =~= lsq);
                patched_lines.push(same);
            }
            assert(patched_lines@ == before.push(patched_lines@.last()));
            assert(patched_lines@.last()@ == patched_line(lsq));
            proof {
                assert(views(patched_lines@) =~= views(before).push(patched_line(lsq)));
                assert(lv.take(i + 1).map_values(|l: Seq<char>| patched_line(l)) =~= lv.take(
                    i as int,
                ).map_values(|l: Seq<char>| patched_line(l)).push(patched_line(lsq)));
                assert(this_changed == (is_candidate_line(lsq) && patch_index(lsq) != lsq));
                if changed || this_changed {
                    if changed {
                        let k = choose|k: int|
                            0 <= k < lv.take(i as int).len() && is_candidate_line(lv.take(i as int)[k])
                                && patch_index(lv.take(i as int)[k]) != lv.take(i as int)[k];
                        assert(lv.take(i + 1)[k] == lv.take(i as int)[k]);
                    } else {
                        assert(lv.take(i + 1)[i as int] == lsq);
                    }
                    assert(any_line_patched(lv.take(i + 1)));
                } else {
                    assert forall|k: int|
                        0 <= k < lv.take(i + 1).len() && is_candidate_line(#[trigger] lv.take(i + 1)[k])
                        implies patch_index(lv.take(i + 1)[k]) == lv.take(i + 1)[k] by {
                        if k < i {
                            assert(lv.take(i + 1)[k] == lv.take(i as int)[k]);
                        }
                    }
                }
            }
            changed = changed || this_changed;
            i = i + 1;
        }
        proof {
            assert(lv.take(lv.len() as int) =~= lv);
        }
        let content = if changed {
            let nl: [char; 1] = ['\n'];
            proof {
                reveal_strlit("\n");
            }
            assert(nl@ =~= "\n"@);
            join_chars(&patched_lines, nl.as_slice())
        } else {
            proof {
                reveal_strlit("arr[index]");
                reveal_strlit("vec[idx]");
                reveal_strlit("slice[i]");
            }
            let a = replace_str(code.as_slice(), "arr[index]", "arr.get(index).copied().unwrap_or(0)");
            let b = replace_str(a.as_slice(), "vec[idx]", "vec.get(idx).copied()");
            replace_str(b.as_slice(), "slice[i]", "slice.get(i).copied()")
        };
        let patched_file_content = string_of(content.as_slice());
        let diff = generate_unified_diff(original_code, patched_file_content.as_str(), target_file);
        Ok(
            PatchCandidate {
                diff,
                patched_file_content,
                target_file: owned(target_file),
                rationale: owned("Replaced direct index access with safe bounds-checked get() method"),
            },
        )
    }
}

/// The narrative of a repair that passed its validation.
pub open spec fn repair_narrative(target_file: Seq<char>, failing_test: Seq<char>) -> Seq<char> {
    "Successfully repaired index out of bounds bug in "@ + target_file + ". Failing test '"@
        + failing_test + "' now passes."@
}

/// The hash under which the genome of a repair of `code` is stored: the
/// lowercase hex of the BLAKE3 hash of its UTF-8 bytes.
pub open spec fn code_hash(code: Seq<char>) -> Seq<char> {
    hex(blake3_digest(vstd::utf8::encode_utf8(code)))
}

impl ProjectRepairEngine {
    /// Refuses a project whose tests pass before any repair.
    pub fn require_failure(initial_success: bool) -> (r: Result<(), HephaestusError>)
        ensures
            initial_success <==> r is Err,
            initial_success ==> (r matches Err(HephaestusError::InvalidInput(m))
                && m@ == "Initial project tests passed; no failure to repair"@),
    {
        if initial_success {
            Err(HephaestusError::InvalidInput(owned("Initial project tests passed; no failure to repair")))
        } else {
            Ok(())
        }
    }

    /// What a `cargo test` run reports: whether it passed, and the failure
    /// report with the name of the failing test read from its output.
    pub fn test_run_report(
        success: bool,
        exit_code: Option<i32>,
        stdout: String,
        stderr: String,
        duration_ms: u64,
    ) -> (r: (bool, FailureReport))
        ensures
            r.0 == success,
            r.1.failing_test@ == failing_test_name(stdout@, stderr@),
            r.1.exit_code == exit_code,
            r.1.stdout@ == stdout@,
            r.1.stderr@ == stderr@,
            r.1.duration_ms == duration_ms,
    {
        let failing_test = parse_failing_test_name(stdout.as_str(), stderr.as_str());
        (success, FailureReport { failing_test, exit_code, stderr, stdout, duration_ms })
    }

    /// The validation report of a patched workspace: the check, clippy and
    /// test outcomes, and the output of the test run.
    pub fn validation_report(
        compiled: bool,
        clippy_passed: bool,
        tests: &(bool, FailureReport),
        duration_ms: u64,
    ) -> (v: ValidationReport)
        ensures
            v.compiled == compiled,
            v.clippy_passed == clippy_passed,
            v.tests_passed == tests.0,
            v.duration_ms == duration_ms,
            v.stdout@ == tests.1.stdout@,
            v.stderr@ == tests.1.stderr@,
    {
        ValidationReport {
            compiled,
            clippy_passed,
            tests_passed: tests.0,
            duration_ms,
            stdout: tests.1.stdout.clone(),
            stderr: tests.1.stderr.clone(),
        }
    }

    /// Concludes a repair cycle: the repair succeeds when the patched code
    /// compiled and its tests passed. The genome to store is keyed by the
    /// code's hash, stamped by the clock, triggered by the failure's stderr,
    /// holds the diff as its one hypothesis and, on success, the patched
    /// content and the narrative. The result carries the failure, the patch,
    /// the validation, the diff and the hash.
    pub fn conclude_cycle(
        original_code: String,
        target_file: &str,
        failure: FailureReport,
        patch: PatchCandidate,
        validation: ValidationReport,
    ) -> (r: (RepairGenome, RepairCycleResult))
        ensures
            ({
                let (g, res) = r;
                let success = validation.compiled && validation.tests_passed;
                &&& g.hash@ == code_hash(original_code@)
                &&& g.original_code@ == original_code@
                &&& g.telemetry_trigger matches Some(t) && t@ == failure.stderr@
                &&& strs(g.monkey_hypotheses@) == seq![patch.diff@]
                &&& g.rejected_patches@.len() == 0
                &&& (success ==> (g.final_repaired_code matches Some(c) && c@
                    == patch.patched_file_content@))
                &&& (success ==> (g.narrative_summary matches Some(n) && n@ == repair_narrative(
                    target_file@,
                    failure.failing_test@,
                )))
                &&& (!success ==> g.final_repaired_code is None && g.narrative_summary is None)
                &&& g.semantic_cluster is None && g.wing is None && g.aaak_compressed is None
                &&& g.dependency_density is None && g.ast_topology_hash is None
                &&& res.success == success
                &&& res.original_failure == failure
                &&& res.patch == Some(patch)
                &&& res.validation == Some(validation)
                &&& (res.unified_diff matches Some(d) && d@ == patch.diff@)
                &&& res.genome_hash@ == g.hash@
            }),
    {
        let success = validation.compiled && validation.tests_passed;
        let digest = blake3_hash(original_code.as_str().as_bytes());
        let genome_hash = hex_string(digest.as_slice());
        let mut genome = RepairGenome::new(genome_hash.clone(), original_code);
        genome.telemetry_trigger = Some(failure.stderr.clone());
        let mut hyps: Vec<String> = Vec::new();
        hyps.push(patch.diff.clone());
        assert(strs(hyps@) =~= seq![patch.diff@]);
        genome.monkey_hypotheses = hyps;
        if success {
            genome.final_repaired_code = Some(patch.patched_file_content.clone());
            let mut n: Vec<char> = Vec::new();
            extend_str(&mut n, "Successfully repaired index out of bounds bug in ");
            extend_str(&mut n, target_file);
            extend_str(&mut n, ". Failing test '");
            extend_str(&mut n, failure.failing_test.as_str());
            extend_str(&mut n, "' now passes.");
            genome.narrative_summary = Some(string_of(n.as_slice()));
        }
        let unified_diff = Some(patch.diff.clone());
        let result = RepairCycleResult {
            success,
            original_failure: failure,
            patch: Some(patch),
            validation: Some(validation),
            unified_diff,
            genome_hash,
        };
        (genome, result)
    }
}

/// Attribute lines are never rewritten: when some line is patched, the
/// patched content is the lines joined by newlines, one for each line of
/// the code, and a line whose first non-blank character is `#` stands
/// there unchanged; so does a comment line (`//`), a function header
/// (`fn ` or `pub fn`), a line holding `vec![` or `&[`, and a line without
/// both `[` and `]`.
pub proof fn lemma_attribute_lines_kept(code: Seq<char>)
    ensures
        any_line_patched(lines(code)) ==> exists|ps: Seq<Seq<char>>|
            #[trigger] join(ps, "\n"@) == patched_content(code) && ps.len() == lines(code).len() && forall|i: int|
                0 <= i < ps.len() && ({
                    let l = lines(code)[i];
                    let t = trim_start(l);
                    ||| starts_with(t, "#"@)
                    ||| starts_with(t, "//"@)
                    ||| starts_with(t, "fn "@)
                    ||| starts_with(t, "pub fn"@)
                    ||| contains(l, "vec!["@)
                    ||| contains(l, "&["@)
                    ||| !contains(l, "["@)
                    ||| !contains(l, "]"@)
                }) ==> ps[i] == lines(code)[i],
{
    let ls = lines(code);
    if any_line_patched(ls) {
        let ps = ls.map_values(|l: Seq<char>| patched_line(l));
        assert forall|i: int|
            0 <= i < ps.len() && ({
                let l = ls[i];
                let t = trim_start(l);
                ||| starts_with(t, "#"@)
                ||| starts_with(t, "//"@)
                ||| starts_with(t, "fn "@)
                ||| starts_with(t, "pub fn"@)
                ||| contains(l, "vec!["@)
                ||| contains(l, "&["@)
                ||| !contains(l, "["@)
                ||| !contains(l, "]"@)
            }) implies ps[i] == ls[i] by {
            assert(!is_candidate_line(ls[i]));
        }
        assert(join(ps, "\n"@) == patched_content(code));
    }
}

} // verus!
