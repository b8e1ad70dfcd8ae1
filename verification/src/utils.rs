//! Path and size helpers: extension classification, output-path generation,
//! and human-readable size formatting.

use vstd::prelude::*;
use vstd::string::StrSliceExecFns;
use vstd::string::StringExecFns;

verus! {

// ---------------------------------------------------------------------------
// Characters and case folding
//
// All character reasoning is done over Unicode code points (`char as int`).
// Case folding is ASCII-only: `A`..`Z` fold to `a`..`z`, every other
// character is left alone.
// ---------------------------------------------------------------------------

/// Code point of a character after ASCII case folding.
pub open spec fn lower_code(c: char) -> int {
    if 'A' as int <= c as int && c as int <= 'Z' as int {
        c as int + 32
    } else {
        c as int
    }
}

/// Case-insensitive match of `s` against an all-lowercase ASCII target `t`:
/// equal lengths, and each character of `s` folds to the code point of the
/// corresponding character of `t`.
pub open spec fn ci_matches(s: Seq<char>, t: Seq<char>) -> bool {
    &&& s.len() == t.len()
    &&& forall|i: int| 0 <= i < s.len() ==> lower_code(s[i]) == (#[trigger] t[i]) as int
}

/// Two character sequences are equal up to ASCII case.
pub open spec fn seq_ci_eq(s: Seq<char>, t: Seq<char>) -> bool {
    &&& s.len() == t.len()
    &&& forall|i: int| 0 <= i < s.len() ==> lower_code(s[i]) == lower_code(#[trigger] t[i])
}

// ---------------------------------------------------------------------------
// Locating the extension of a path
// ---------------------------------------------------------------------------

/// Index of the last occurrence in `s` of the character with code point
/// `code`, or -1 if there is none.
pub open spec fn last_index_of(s: Seq<char>, code: int) -> int
    decreases s.len(),
{
    if s.len() == 0 {
        -1
    } else if s.last() as int == code {
        s.len() - 1
    } else {
        last_index_of(s.drop_last(), code)
    }
}

pub proof fn lemma_last_index_of_props(s: Seq<char>, code: int)
    ensures
        -1 <= last_index_of(s, code) < s.len(),
        last_index_of(s, code) >= 0 ==> s[last_index_of(s, code)] as int == code,
        forall|k: int| last_index_of(s, code) < k < s.len() ==> (#[trigger] s[k]) as int != code,
    decreases s.len(),
{
    if s.len() > 0 && s.last() as int != code {
        lemma_last_index_of_props(s.drop_last(), code);
        assert(forall|k: int| 0 <= k < s.len() - 1 ==> (#[trigger] s[k]) == s.drop_last()[k]);
    }
}

/// `last_index_of` is pinned down by its characteristic properties.
pub proof fn lemma_last_index_of_unique(s: Seq<char>, code: int, i: int)
    requires
        -1 <= i < s.len(),
        i >= 0 ==> s[i] as int == code,
        forall|k: int| i < k < s.len() ==> (#[trigger] s[k]) as int != code,
    ensures
        last_index_of(s, code) == i,
    decreases s.len(),
{
    if s.len() == 0 {
    } else if s.last() as int == code {
        assert(i == s.len() - 1);
    } else {
        assert(s[s.len() - 1] as int != code);
        assert(i < s.len() - 1);
        assert(forall|k: int| 0 <= k < s.len() - 1 ==> (#[trigger] s.drop_last()[k]) == s[k]);
        lemma_last_index_of_unique(s.drop_last(), code, i);
    }
}

/// Start of the final path component: one past the last `/`.
pub open spec fn file_name_start(s: Seq<char>) -> int {
    last_index_of(s, '/' as int) + 1
}

/// Position of the last `.` of the path, or -1.
pub open spec fn extension_dot(s: Seq<char>) -> int {
    last_index_of(s, '.' as int)
}

/// The final component has an extension when its last `.` lies strictly
/// inside it: a name that starts with its only `.` has no extension.
pub open spec fn has_extension(s: Seq<char>) -> bool {
    extension_dot(s) > file_name_start(s)
}

/// The extension of the final path component (text after its last dot), or
/// `None` when there is no extension.
pub open spec fn spec_extension(s: Seq<char>) -> Option<Seq<char>> {
    if has_extension(s) {
        Some(s.subrange(extension_dot(s) + 1, s.len() as int))
    } else {
        None
    }
}

/// The final path component.
pub open spec fn spec_file_name(s: Seq<char>) -> Seq<char> {
    s.subrange(file_name_start(s), s.len() as int)
}

/// The prefix of the path that ends with its file name: trailing `/`
/// separators, and trailing `.` segments (current-directory components),
/// are cut, as filesystem path parsing normalizes them away.
pub open spec fn spec_name_prefix(s: Seq<char>) -> Seq<char>
    decreases s.len(),
{
    if s.len() == 0 {
        s
    } else if s.last() as int == '/' as int {
        spec_name_prefix(s.drop_last())
    } else if s.last() as int == '.' as int && (s.len() == 1 || s[s.len() - 2] as int
        == '/' as int) {
        spec_name_prefix(s.drop_last())
    } else {
        s
    }
}

/// A parent-directory component, which has no extension to replace.
pub open spec fn spec_is_dot_dot(name: Seq<char>) -> bool {
    name.len() == 2 && name[0] as int == '.' as int && name[1] as int == '.' as int
}

/// Whether the path has a file name at all: something remains once the
/// trailing separators and `.` segments are cut, and it is not a
/// parent-directory component.
pub open spec fn spec_has_file_name(s: Seq<char>) -> bool {
    spec_name_prefix(s).len() > 0 && !spec_is_dot_dot(spec_file_name(spec_name_prefix(s)))
}

/// Cutting down to the file name is a fixed point, so the remaining text
/// ends with a file-name character: not a separator, and not a `.` that
/// closes a current-directory segment.
proof fn lemma_name_prefix_fixed(s: Seq<char>)
    ensures
        spec_name_prefix(s).len() > 0 ==> {
            let t = spec_name_prefix(s);
            &&& !(t.last() as int == '/' as int)
            &&& !(t.last() as int == '.' as int && (t.len() == 1 || t[t.len() - 2] as int
                == '/' as int))
        },
    decreases s.len(),
{
    if s.len() == 0 {
    } else if s.last() as int == '/' as int {
        lemma_name_prefix_fixed(s.drop_last());
    } else if s.last() as int == '.' as int && (s.len() == 1 || s[s.len() - 2] as int
        == '/' as int) {
        lemma_name_prefix_fixed(s.drop_last());
    }
}

/// Scan `s` before index `end` for the last occurrence of the character
/// with code point `code`.
fn last_index_of_code(s: &str, code: u32, end: usize) -> (r: Option<usize>)
    requires
        end <= s@.len(),
    ensures
        match r {
            Some(i) => last_index_of(s@.subrange(0, end as int), code as int) == i,
            None => last_index_of(s@.subrange(0, end as int), code as int) == -1,
        },
{
    let ghost pre = s@.subrange(0, end as int);
    proof {
        assert(forall|k: int| 0 <= k < end ==> (#[trigger] pre[k]) == s@[k]);
    }
    let mut idx: usize = end;
    while idx > 0
        invariant
            idx <= end <= s@.len(),
            pre == s@.subrange(0, end as int),
            forall|k: int| idx <= k < end ==> (#[trigger] s@[k]) as int != code,
        decreases idx,
    {
        idx = idx - 1;
        let c = s.get_char(idx);
        if c as u32 == code {
            proof {
                lemma_last_index_of_unique(pre, code as int, idx as int);
            }
            return Some(idx);
        }
    }
    proof {
        lemma_last_index_of_unique(pre, code as int, -1);
    }
    None
}

/// The extension of the final path component, if it has one.
pub fn extension_of(s: &str) -> (r: Option<&str>)
    ensures
        match r {
            Some(e) => spec_extension(s@) == Some(e@),
            None => spec_extension(s@) is None,
        },
{
    let n: usize = s.unicode_len();
    let dot = last_index_of_code(s, 46, n);
    let slash = last_index_of_code(s, 47, n);
    proof {
        assert('.' as int == 46);
        assert('/' as int == 47);
        assert(s@.subrange(0, n as int) =~= s@);
        lemma_last_index_of_props(s@, 46);
        lemma_last_index_of_props(s@, 47);
    }
    let fstart: usize = match slash {
        Some(i) => i + 1,
        None => 0,
    };
    match dot {
        Some(j) => {
            if j > fstart {
                Some(s.substring_char(j + 1, n))
            } else {
                None
            }
        },
        None => None,
    }
}

// ---------------------------------------------------------------------------
// Supported input formats
// ---------------------------------------------------------------------------

/// An extension names a convertible input format: one of jpg, jpeg, png,
/// bmp, tiff, tif, gif, compared case-insensitively. WebP itself is not a
/// convertible source.
pub open spec fn spec_ext_supported(e: Seq<char>) -> bool {
    ||| ci_matches(e, seq!['j', 'p', 'g'])
    ||| ci_matches(e, seq!['j', 'p', 'e', 'g'])
    ||| ci_matches(e, seq!['p', 'n', 'g'])
    ||| ci_matches(e, seq!['b', 'm', 'p'])
    ||| ci_matches(e, seq!['t', 'i', 'f', 'f'])
    ||| ci_matches(e, seq!['t', 'i', 'f'])
    ||| ci_matches(e, seq!['g', 'i', 'f'])
}

/// The path's extension is in the supported-input set.
pub open spec fn spec_is_supported(s: Seq<char>) -> bool {
    match spec_extension(s) {
        Some(e) => spec_ext_supported(e),
        None => false,
    }
}

/// The path's extension is `webp`, case-insensitively.
pub open spec fn spec_is_webp(s: Seq<char>) -> bool {
    match spec_extension(s) {
        Some(e) => ci_matches(e, seq!['w', 'e', 'b', 'p']),
        None => false,
    }
}

/// Compare `s` to an all-lowercase ASCII target, folding `s` to lower case.
fn chars_ci_match(s: &str, t: &str) -> (r: bool)
    ensures
        r == ci_matches(s@, t@),
{
    let ns: usize = s.unicode_len();
    let nt: usize = t.unicode_len();
    if ns != nt {
        return false;
    }
    let mut i: usize = 0;
    while i < ns
        invariant
            i <= ns,
            ns == s@.len(),
            ns == t@.len(),
            forall|k: int| 0 <= k < i ==> lower_code(s@[k]) == (#[trigger] t@[k]) as int,
        decreases ns - i,
    {
        let sc = s.get_char(i) as u32;
        let tc = t.get_char(i) as u32;
        let folded: u32 = if 65 <= sc && sc <= 90 {
            sc + 32
        } else {
            sc
        };
        proof {
            assert('A' as int == 65);
            assert('Z' as int == 90);
            assert(folded as int == lower_code(s@[i as int]));
        }
        if folded != tc {
            return false;
        }
        i = i + 1;
    }
    true
}

/// Get supported image extensions.
pub fn supported_extensions() -> (r: Vec<&'static str>)
    ensures
        r@.len() == 7,
        r@[0]@ == seq!['j', 'p', 'g'],
        r@[1]@ == seq!['j', 'p', 'e', 'g'],
        r@[2]@ == seq!['p', 'n', 'g'],
        r@[3]@ == seq!['b', 'm', 'p'],
        r@[4]@ == seq!['t', 'i', 'f', 'f'],
        r@[5]@ == seq!['t', 'i', 'f'],
        r@[6]@ == seq!['g', 'i', 'f'],
{
    proof {
        reveal_strlit("jpg");
        reveal_strlit("jpeg");
        reveal_strlit("png");
        reveal_strlit("bmp");
        reveal_strlit("tiff");
        reveal_strlit("tif");
        reveal_strlit("gif");
        assert("jpg"@ =~= seq!['j', 'p', 'g']);
        assert("jpeg"@ =~= seq!['j', 'p', 'e', 'g']);
        assert("png"@ =~= seq!['p', 'n', 'g']);
        assert("bmp"@ =~= seq!['b', 'm', 'p']);
        assert("tiff"@ =~= seq!['t', 'i', 'f', 'f']);
        assert("tif"@ =~= seq!['t', 'i', 'f']);
        assert("gif"@ =~= seq!['g', 'i', 'f']);
    }
    let r: Vec<&'static str> = vec!["jpg", "jpeg", "png", "bmp", "tiff", "tif", "gif"];
    r
}

/// Check if file has supported image extension.
pub fn is_supported_extension(file_path: &str) -> (r: bool)
    ensures
        r == spec_is_supported(file_path@),
{
    proof {
        reveal_strlit("jpg");
        reveal_strlit("jpeg");
        reveal_strlit("png");
        reveal_strlit("bmp");
        reveal_strlit("tiff");
        reveal_strlit("tif");
        reveal_strlit("gif");
        assert("jpg"@ =~= seq!['j', 'p', 'g']);
        assert("jpeg"@ =~= seq!['j', 'p', 'e', 'g']);
        assert("png"@ =~= seq!['p', 'n', 'g']);
        assert("bmp"@ =~= seq!['b', 'm', 'p']);
        assert("tiff"@ =~= seq!['t', 'i', 'f', 'f']);
        assert("tif"@ =~= seq!['t', 'i', 'f']);
        assert("gif"@ =~= seq!['g', 'i', 'f']);
    }
    match extension_of(file_path) {
        Some(e) => {
            chars_ci_match(e, "jpg") || chars_ci_match(e, "jpeg") || chars_ci_match(e, "png")
                || chars_ci_match(e, "bmp") || chars_ci_match(e, "tiff") || chars_ci_match(
                e,
                "tif",
            ) || chars_ci_match(e, "gif")
        },
        None => false,
    }
}

/// Check if file is already WebP format.
pub fn is_webp_file(file_path: &str) -> (r: bool)
    ensures
        r == spec_is_webp(file_path@),
{
    proof {
        reveal_strlit("webp");
        assert("webp"@ =~= seq!['w', 'e', 'b', 'p']);
    }
    match extension_of(file_path) {
        Some(e) => chars_ci_match(e, "webp"),
        None => false,
    }
}

// ---------------------------------------------------------------------------
// Output paths
// ---------------------------------------------------------------------------

/// The input path with its extension replaced (not appended) by `.webp`,
/// as replacing the extension of the final path component does: the text
/// from the last dot of the file name on is cut before `.webp` is
/// attached; a file name without an extension just gains `.webp`; a path
/// with no file name at all (empty, `/`, or ending in `.` or `..`
/// components) is left unchanged.
pub open spec fn spec_output_path(s: Seq<char>) -> Seq<char> {
    if !spec_has_file_name(s) {
        s
    } else {
        let t = spec_name_prefix(s);
        if has_extension(t) {
            t.subrange(0, extension_dot(t)) + seq!['.', 'w', 'e', 'b', 'p']
        } else {
            t + seq!['.', 'w', 'e', 'b', 'p']
        }
    }
}

/// Generate output path for WebP conversion.
pub fn generate_output_path(input_path: &str) -> (r: String)
    ensures
        r@ == spec_output_path(input_path@),
{
    let n: usize = input_path.unicode_len();
    proof {
        assert('.' as int == 46);
        assert('/' as int == 47);
        assert(input_path@.subrange(0, n as int) =~= input_path@);
        reveal_strlit(".webp");
        assert(".webp"@ =~= seq!['.', 'w', 'e', 'b', 'p']);
    }
    // cut trailing separators and current-directory segments to land at
    // the end of the file name
    let mut e: usize = n;
    let mut stop: bool = false;
    while e > 0 && !stop
        invariant
            e <= n,
            n == input_path@.len(),
            spec_name_prefix(input_path@) == spec_name_prefix(
                input_path@.subrange(0, e as int),
            ),
            stop ==> spec_name_prefix(input_path@.subrange(0, e as int)) == input_path@.subrange(
                0,
                e as int,
            ),
        decreases e + (if stop { 0int } else { 1 }),
    {
        let ghost pre = input_path@.subrange(0, e as int);
        let c = input_path.get_char(e - 1);
        if c as u32 == 47 {
            proof {
                assert(pre.drop_last() =~= input_path@.subrange(0, e - 1));
            }
            e = e - 1;
        } else if c as u32 == 46 && (e == 1 || input_path.get_char(e - 2) as u32 == 47) {
            proof {
                assert(pre.drop_last() =~= input_path@.subrange(0, e - 1));
            }
            e = e - 1;
        } else {
            stop = true;
        }
    }
    let ghost t = spec_name_prefix(input_path@);
    proof {
        assert(t == input_path@.subrange(0, e as int));
    }
    if e == 0 {
        return String::from_str(input_path);
    }
    let dot = last_index_of_code(input_path, 46, e);
    let slash = last_index_of_code(input_path, 47, e);
    proof {
        lemma_last_index_of_props(t, 46);
        lemma_last_index_of_props(t, 47);
    }
    let fstart: usize = match slash {
        Some(i) => i + 1,
        None => 0,
    };
    // a final `..` component keeps the path as it is
    if e - fstart == 2 && input_path.get_char(fstart) as u32 == 46 && input_path.get_char(
        fstart + 1,
    ) as u32 == 46 {
        proof {
            assert(spec_is_dot_dot(spec_file_name(t)));
        }
        return String::from_str(input_path);
    }
    proof {
        assert(!spec_is_dot_dot(spec_file_name(t)));
    }
    let stem_end: usize = match dot {
        Some(j) => {
            if j > fstart {
                j
            } else {
                e
            }
        },
        None => e,
    };
    let stem: &str = input_path.substring_char(0, stem_end);
    proof {
        if has_extension(t) {
            assert(stem@ =~= t.subrange(0, extension_dot(t)));
        } else {
            assert(stem@ =~= t);
        }
    }
    let mut out = String::from_str(stem);
    out.append(".webp");
    out
}

/// Helper for reasoning about searches in a concatenation whose added tail
/// holds no occurrence of the character.
proof fn lemma_last_index_of_concat_free(u: Seq<char>, w: Seq<char>, code: int)
    requires
        forall|k: int| 0 <= k < w.len() ==> (#[trigger] w[k]) as int != code,
    ensures
        last_index_of(u + w, code) == last_index_of(u, code),
{
    lemma_last_index_of_props(u, code);
    let i = last_index_of(u, code);
    assert(forall|k: int| 0 <= k < u.len() ==> (#[trigger] (u + w)[k]) == u[k]);
    assert(forall|k: int|
        u.len() <= k < u.len() + w.len() ==> (#[trigger] (u + w)[k]) == w[k - u.len()]);
    lemma_last_index_of_unique(u + w, code, i);
}

/// Replacing the extension is idempotent: applying the replacement to its
/// own result changes nothing.
pub proof fn lemma_output_path_idempotent(s: Seq<char>)
    ensures
        spec_output_path(spec_output_path(s)) == spec_output_path(s),
{
    if spec_has_file_name(s) {
        let t = spec_name_prefix(s);
        let w = seq!['.', 'w', 'e', 'b', 'p'];
        let fstart = file_name_start(t);
        lemma_name_prefix_fixed(s);
        lemma_last_index_of_props(t, '/' as int);
        lemma_last_index_of_props(t, '.' as int);
        let u: Seq<char> = if has_extension(t) {
            t.subrange(0, extension_dot(t))
        } else {
            t
        };
        let r = u + w;
        assert(spec_output_path(s) == r);
        // the file name of `t` starts before `u` ends: with an extension
        // the stem is nonempty, and without one the whole name remains
        assert(t.last() as int != '/' as int);
        assert(fstart < t.len());
        assert(fstart < u.len());
        // the result ends in a plain letter, so it is its own name prefix
        assert(r[r.len() - 1] == 'p');
        assert(spec_name_prefix(r) == r);
        // the added tail holds no separator, so the file name of the
        // result starts where the file name of `t` does
        assert(forall|k: int| 0 <= k < w.len() ==> (#[trigger] w[k]) as int != '/' as int);
        lemma_last_index_of_concat_free(u, w, '/' as int);
        assert(forall|k: int| 0 <= k < u.len() ==> (#[trigger] u[k]) == t[k]);
        lemma_last_index_of_unique(u, '/' as int, fstart - 1);
        assert(file_name_start(r) == fstart);
        // the last dot of the result is the one that begins `.webp`
        assert(forall|k: int|
            u.len() < k < r.len() ==> (#[trigger] r[k]) as int != '.' as int);
        assert(r[u.len() as int] as int == '.' as int);
        lemma_last_index_of_unique(r, '.' as int, u.len() as int);
        assert(has_extension(r));
        // the result's name is longer than a `..` component
        assert(r.len() - fstart >= 6);
        assert(spec_has_file_name(r));
        assert(spec_output_path(r) == r.subrange(0, u.len() as int) + w);
        assert(r.subrange(0, u.len() as int) =~= u);
    }
}

/// The base name of the input moved into `folder`, with the extension
/// replaced by `.webp`.
pub fn generate_output_path_in_folder(input_path: &str, folder: &str) -> (r: String)
    ensures
        r@ == folder@ + seq!['/'] + spec_output_path(spec_file_name(input_path@)),
{
    let n: usize = input_path.unicode_len();
    let slash = last_index_of_code(input_path, 47, n);
    proof {
        assert('/' as int == 47);
        assert(input_path@.subrange(0, n as int) =~= input_path@);
        lemma_last_index_of_props(input_path@, 47);
        reveal_strlit("/");
        assert("/"@ =~= seq!['/']);
    }
    // the last `/` lies before the end of the path, so moving one past it
    // cannot overflow
    let fstart: usize = match slash {
        Some(i) => i + 1,
        None => 0,
    };
    let name: &str = input_path.substring_char(fstart, n);
    let out_name = generate_output_path(name);
    let mut out = String::from_str(folder);
    out.append("/");
    out.append(out_name.as_str());
    out
}

/// Where a converted file is written: an explicit output path wins; with an
/// output folder the file keeps its base name and moves there; otherwise it
/// is written beside the input, extension replaced by `.webp`.
pub fn resolve_output_path(input_path: &str, explicit: Option<&str>, output_folder: Option<&str>) -> (r:
    String)
    ensures
        match explicit {
            Some(p) => r@ == p@,
            None => match output_folder {
                Some(f) => r@ == f@ + seq!['/'] + spec_output_path(spec_file_name(input_path@)),
                None => r@ == spec_output_path(input_path@),
            },
        },
{
    match explicit {
        Some(p) => String::from_str(p),
        None => match output_folder {
            Some(f) => generate_output_path_in_folder(input_path, f),
            None => generate_output_path(input_path),
        },
    }
}

// ---------------------------------------------------------------------------
// Case insensitivity of the extension checks
// ---------------------------------------------------------------------------

proof fn lemma_last_index_of_ci(p: Seq<char>, q: Seq<char>, code: int)
    requires
        seq_ci_eq(p, q),
        !(65 <= code <= 90),
        !(97 <= code <= 122),
    ensures
        last_index_of(p, code) == last_index_of(q, code),
    decreases p.len(),
{
    if p.len() > 0 {
        assert(lower_code(p.last()) == lower_code(q.last()));
        assert(p.last() as int == code <==> q.last() as int == code);
        if p.last() as int != code {
            assert(forall|i: int|
                0 <= i < p.len() - 1 ==> lower_code(#[trigger] p.drop_last()[i]) == lower_code(
                    q.drop_last()[i],
                ));
            lemma_last_index_of_ci(p.drop_last(), q.drop_last(), code);
        }
    }
}

/// Extension checks are case-insensitive: two paths that differ only in
/// ASCII case are both supported inputs or neither, and both WebP files or
/// neither.
pub proof fn lemma_extension_checks_case_insensitive(p: Seq<char>, q: Seq<char>)
    requires
        seq_ci_eq(p, q),
    ensures
        spec_is_supported(p) == spec_is_supported(q),
        spec_is_webp(p) == spec_is_webp(q),
{
    lemma_last_index_of_ci(p, q, '.' as int);
    lemma_last_index_of_ci(p, q, '/' as int);
    lemma_last_index_of_props(p, '.' as int);
    lemma_last_index_of_props(q, '.' as int);
    if has_extension(p) {
        let d = extension_dot(p);
        let ep = p.subrange(d + 1, p.len() as int);
        let eq_ = q.subrange(d + 1, q.len() as int);
        assert forall|i: int| 0 <= i < ep.len() implies lower_code(#[trigger] ep[i]) == lower_code(
            eq_[i],
        ) by {
            assert(lower_code(p[d + 1 + i]) == lower_code(q[d + 1 + i]));
        }
        assert forall|t: Seq<char>| #[trigger] ci_matches(ep, t) == ci_matches(eq_, t) by {
            if ci_matches(ep, t) {
                assert forall|i: int| 0 <= i < eq_.len() implies lower_code(eq_[i]) == (
                #[trigger] t[i]) as int by {
                    assert(lower_code(ep[i]) == t[i] as int);
                }
            }
            if ci_matches(eq_, t) {
                assert forall|i: int| 0 <= i < ep.len() implies lower_code(ep[i]) == (
                #[trigger] t[i]) as int by {
                    assert(lower_code(eq_[i]) == t[i] as int);
                }
            }
        }
        assert(spec_extension(p) == Some(ep));
        assert(spec_extension(q) == Some(eq_));
    }
}

// ---------------------------------------------------------------------------
// Human-readable sizes
// ---------------------------------------------------------------------------

/// Index of the unit a byte count is shown in: the largest of B, KB, MB,
/// GB, TB whose scaled value stays below 1024, capped at TB.
pub open spec fn spec_unit_index(s: nat) -> nat {
    if s < 1024 {
        0
    } else if s < 1048576 {
        1
    } else if s < 1073741824 {
        2
    } else if s < 1099511627776 {
        3
    } else {
        4
    }
}

/// Bytes per unit at index `k`.
pub open spec fn spec_unit_divisor(k: nat) -> nat {
    if k == 0 {
        1
    } else if k == 1 {
        1024
    } else if k == 2 {
        1048576
    } else if k == 3 {
        1073741824
    } else {
        1099511627776
    }
}

/// Name of the unit at index `k`.
pub open spec fn spec_unit_name(k: nat) -> Seq<char> {
    if k == 0 {
        seq!['B']
    } else if k == 1 {
        seq!['K', 'B']
    } else if k == 2 {
        seq!['M', 'B']
    } else if k == 3 {
        seq!['G', 'B']
    } else {
        seq!['T', 'B']
    }
}

/// `num / den` rounded to the nearest integer, ties to the even neighbour.
pub open spec fn round_half_even(num: nat, den: nat) -> nat
    recommends
        den > 0,
{
    let q = num / den;
    let r = num % den;
    if 2 * r > den {
        q + 1
    } else if 2 * r == den && q % 2 == 1 {
        q + 1
    } else {
        q
    }
}

/// The scaled value shown for `s` bytes, in tenths of its unit.
pub open spec fn spec_scaled_tenths(s: nat) -> nat {
    round_half_even(s * 10, spec_unit_divisor(spec_unit_index(s)))
}

/// Decimal digit character.
pub open spec fn spec_digit_char(d: nat) -> char {
    if d == 0 {
        '0'
    } else if d == 1 {
        '1'
    } else if d == 2 {
        '2'
    } else if d == 3 {
        '3'
    } else if d == 4 {
        '4'
    } else if d == 5 {
        '5'
    } else if d == 6 {
        '6'
    } else if d == 7 {
        '7'
    } else if d == 8 {
        '8'
    } else {
        '9'
    }
}

/// Decimal digits of `n`, most significant first.
pub open spec fn spec_digits(n: nat) -> Seq<char>
    decreases n,
{
    if n < 10 {
        seq![spec_digit_char(n)]
    } else {
        spec_digits(n / 10).push(spec_digit_char(n % 10))
    }
}

/// The text `format_size` produces: the scaled value with one decimal
/// place, a space, and the unit name.
pub open spec fn spec_format_size(s: nat) -> Seq<char> {
    let t = spec_scaled_tenths(s);
    spec_digits(t / 10) + seq!['.'] + seq![spec_digit_char(t % 10)] + seq![' '] + spec_unit_name(
        spec_unit_index(s),
    )
}

fn digit_str(d: u64) -> (s: &'static str)
    requires
        d < 10,
    ensures
        s@ == seq![spec_digit_char(d as nat)],
{
    proof {
        reveal_strlit("0");
        reveal_strlit("1");
        reveal_strlit("2");
        reveal_strlit("3");
        reveal_strlit("4");
        reveal_strlit("5");
        reveal_strlit("6");
        reveal_strlit("7");
        reveal_strlit("8");
        reveal_strlit("9");
        assert("0"@ =~= seq!['0']);
        assert("1"@ =~= seq!['1']);
        assert("2"@ =~= seq!['2']);
        assert("3"@ =~= seq!['3']);
        assert("4"@ =~= seq!['4']);
        assert("5"@ =~= seq!['5']);
        assert("6"@ =~= seq!['6']);
        assert("7"@ =~= seq!['7']);
        assert("8"@ =~= seq!['8']);
        assert("9"@ =~= seq!['9']);
    }
    if d == 0 {
        "0"
    } else if d == 1 {
        "1"
    } else if d == 2 {
        "2"
    } else if d == 3 {
        "3"
    } else if d == 4 {
        "4"
    } else if d == 5 {
        "5"
    } else if d == 6 {
        "6"
    } else if d == 7 {
        "7"
    } else if d == 8 {
        "8"
    } else {
        "9"
    }
}

fn digits_string(n: u128) -> (s: String)
    ensures
        s@ == spec_digits(n as nat),
    decreases n,
{
    if n < 10 {
        String::from_str(digit_str(n as u64))
    } else {
        let mut s = digits_string(n / 10);
        let d: u64 = (n % 10) as u64;
        s.append(digit_str(d));
        proof {
            assert(s@ =~= spec_digits((n / 10) as nat).push(spec_digit_char((n % 10) as nat)));
        }
        s
    }
}

/// Format file size in human-readable format: the size is scaled into the
/// largest unit (B, KB, MB, GB, TB) that keeps it below 1024, rounded to
/// one decimal place, ties to even.
pub fn format_size(size_bytes: u64) -> (r: String)
    ensures
        r@ == spec_format_size(size_bytes as nat),
{
    proof {
        reveal_strlit(".");
        reveal_strlit(" ");
        reveal_strlit("B");
        reveal_strlit("KB");
        reveal_strlit("MB");
        reveal_strlit("GB");
        reveal_strlit("TB");
        assert("."@ =~= seq!['.']);
        assert(" "@ =~= seq![' ']);
        assert("B"@ =~= seq!['B']);
        assert("KB"@ =~= seq!['K', 'B']);
        assert("MB"@ =~= seq!['M', 'B']);
        assert("GB"@ =~= seq!['G', 'B']);
        assert("TB"@ =~= seq!['T', 'B']);
    }
    let (divisor, unit): (u64, &'static str) = if size_bytes < 1024 {
        (1, "B")
    } else if size_bytes < 1048576 {
        (1024, "KB")
    } else if size_bytes < 1073741824 {
        (1048576, "MB")
    } else if size_bytes < 1099511627776 {
        (1073741824, "GB")
    } else {
        (1099511627776, "TB")
    };
    let num: u128 = size_bytes as u128 * 10;
    let den: u128 = divisor as u128;
    let q: u128 = num / den;
    let rem: u128 = num % den;
    let tenths: u128 = if 2 * rem > den {
        q + 1
    } else if 2 * rem == den && q % 2 == 1 {
        q + 1
    } else {
        q
    };
    proof {
        assert(tenths as nat == spec_scaled_tenths(size_bytes as nat));
    }
    let whole: u128 = tenths / 10;
    let frac: u64 = (tenths % 10) as u64;
    let mut out = digits_string(whole);
    out.append(".");
    out.append(digit_str(frac));
    out.append(" ");
    out.append(unit);
    out
}

/// The unit `format_size` picks is the largest one that keeps the scaled
/// value below 1024, and its index never exceeds the largest defined unit
/// (TB): below the cap the size is under 1024 times the divisor, and from
/// index 1 up the size is at least one whole unit.
pub proof fn lemma_format_size_unit_choice(s: u64)
    ensures
        spec_unit_index(s as nat) <= 4,
        spec_unit_index(s as nat) < 4 ==> (s as nat) < 1024 * spec_unit_divisor(
            spec_unit_index(s as nat),
        ),
        spec_unit_index(s as nat) > 0 ==> (s as nat) >= spec_unit_divisor(
            spec_unit_index(s as nat),
        ),
{
}

} // verus!
