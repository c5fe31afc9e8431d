//! Rules on relative paths: which walked files take part in a sync, and the
//! name a kept-both conflict copy gets.
use vstd::prelude::*;
use crate::order::paths_equal;

verus! {

/// Index of the last `c` in `s`, or -1.
pub open spec fn last_index_of(s: Seq<char>, c: char) -> int
    decreases s.len(),
{
    if s.len() == 0 {
        -1
    } else if s.last() == c {
        s.len() - 1
    } else {
        last_index_of(s.drop_last(), c)
    }
}

/// Index of the dot that starts the file name's extension, or -1. As for
/// `Path::extension`, the dot lies in the last component and is not its first
/// character.
pub open spec fn extension_dot(p: Seq<char>) -> int {
    let slash = last_index_of(p, '/');
    let dot = last_index_of(p, '.');
    if dot > slash + 1 {
        dot
    } else {
        -1
    }
}

pub open spec fn extension(p: Seq<char>) -> Option<Seq<char>> {
    let d = extension_dot(p);
    if d >= 0 {
        Some(p.subrange(d + 1, p.len() as int))
    } else {
        None
    }
}

/// The closed set of audio extensions, in lower case.
pub open spec fn is_audio_extension(e: Seq<char>) -> bool {
    ||| e == "flac"@
    ||| e == "mp3"@
    ||| e == "m4a"@
    ||| e == "aac"@
    ||| e == "wav"@
    ||| e == "alac"@
    ||| e == "ogg"@
    ||| e == "opus"@
    ||| e == "wma"@
}

/// What `str::to_lowercase` returns for `s`.
pub uninterp spec fn lower_of(s: Seq<char>) -> Seq<char>;

/// The path names an audio file: its extension, lowercased, is an audio extension.
pub open spec fn is_audio_path(p: Seq<char>) -> bool {
    match extension(p) {
        Some(e) => is_audio_extension(lower_of(e)),
        None => false,
    }
}

/// Some directory on the path has a name that begins with `.`.
pub open spec fn in_hidden_directory(p: Seq<char>) -> bool {
    exists|i: int, j: int|
        0 <= i < j < p.len() && #[trigger] p[i] == '.' && (i == 0 || p[i - 1] == '/') && #[trigger] p[j] == '/'
}

/// Whether `glob::Pattern::new` accepts the pattern.
pub uninterp spec fn glob_compiles(pattern: Seq<char>) -> bool;

/// What `glob::Pattern::matches` answers for a compiled pattern and a path.
pub uninterp spec fn glob_matches(pattern: Seq<char>, path: Seq<char>) -> bool;

/// Some pattern that compiles matches the path; patterns that do not compile are ignored.
pub open spec fn is_excluded(p: Seq<char>, patterns: Seq<String>) -> bool {
    exists|k: int| 0 <= k < patterns.len() && glob_compiles(#[trigger] patterns[k]@) && glob_matches(patterns[k]@, p)
}

/// A walked file of a folder pair takes part in the sync: an audio file
/// outside hidden directories that no exclusion pattern matches.
pub open spec fn kept_in_walk(p: Seq<char>, patterns: Seq<String>) -> bool {
    is_audio_path(p) && !in_hidden_directory(p) && !is_excluded(p, patterns)
}

/// A file found on a device takes part in the sync.
pub open spec fn kept_on_device(p: Seq<char>) -> bool {
    is_audio_path(p) && !in_hidden_directory(p)
}

/// Relies on `str::to_lowercase`: its result depends on the characters alone.
#[verifier::external_body]
fn lowercase(s: &str) -> (r: String)
    ensures
        r@ == lower_of(s@),
{
    s.to_lowercase()
}

/// Relies on `glob::Pattern::new`, which fails on a malformed pattern, and on
/// `Pattern::matches` with the default options.
#[verifier::external_body]
fn glob_match(pattern: &str, path: &str) -> (r: Option<bool>)
    ensures
        r == (if glob_compiles(pattern@) {
            Some(glob_matches(pattern@, path@))
        } else {
            None
        }),
{
    match glob::Pattern::new(pattern) {
        Ok(p) => Some(p.matches(path)),
        Err(_) => None,
    }
}

/// The characters of `s`.
pub fn chars_of(s: &str) -> (r: Vec<char>)
    ensures
        r@ == s@,
{
    let n = s.unicode_len();
    let mut r: Vec<char> = Vec::new();
    let mut i: usize = 0;
    while i < n
        invariant
            n == s@.len(),
            i <= n,
            r@ == s@.subrange(0, i as int),
        decreases n - i,
    {
        let c = s.get_char(i);
        r.push(c);
        assert(r@ =~= s@.subrange(0, i + 1));
        i = i + 1;
    }
    assert(r@ =~= s@);
    r
}

fn find_last(v: &Vec<char>, c: char) -> (r: Option<usize>)
    ensures
        match r {
            Some(i) => i as int == last_index_of(v@, c) && i < v@.len(),
            None => last_index_of(v@, c) == -1,
        },
{
    let mut i: usize = v.len();
    assert(v@.subrange(0, i as int) =~= v@);
    while i > 0
        invariant
            i <= v@.len(),
            last_index_of(v@, c) == last_index_of(v@.subrange(0, i as int), c),
        decreases i,
    {
        if v[i - 1] == c {
            return Some(i - 1);
        }
        assert(v@.subrange(0, i as int).drop_last() =~= v@.subrange(0, i - 1));
        i = i - 1;
    }
    None
}

/// Tells whether `path` names an audio file by its extension, case-insensitively.
pub fn is_audio_file(path: &str) -> (r: bool)
    ensures
        r == is_audio_path(path@),
{
    let v = chars_of(path);
    let n = v.len();
    let slash = find_last(&v, '/');
    let dot = find_last(&v, '.');
    let d: usize = match dot {
        None => {
            return false;
        },
        Some(d) => d,
    };
    let after_slash: usize = match slash {
        None => 0,
        Some(s) => s + 1,
    };
    if d <= after_slash {
        return false;
    }
    let ext = path.substring_char(d + 1, n);
    let lower = lowercase(ext);
    is_audio_extension_name(lower.as_str())
}

/// Tells whether a lowercased extension is one of the audio extensions.
pub fn is_audio_extension_name(ext: &str) -> (r: bool)
    ensures
        r == is_audio_extension(ext@),
{
    paths_equal(ext, "flac") || paths_equal(ext, "mp3") || paths_equal(ext, "m4a") || paths_equal(ext, "aac")
        || paths_equal(ext, "wav") || paths_equal(ext, "alac") || paths_equal(ext, "ogg") || paths_equal(ext, "opus")
        || paths_equal(ext, "wma")
}

/// Tells whether a directory on `path` has a name beginning with `.`
/// (`.Trashes`, `.Spotlight-V100`); only `/` separates components.
pub fn is_in_hidden_directory(path: &str) -> (r: bool)
    ensures
        r == in_hidden_directory(path@),
{
    let v = chars_of(path);
    let mut seen_dot = false;
    let mut k: usize = 0;
    while k < v.len()
        invariant
            k <= v@.len(),
            v@ == path@,
            seen_dot == exists|i: int| 0 <= i < k && #[trigger] v@[i] == '.' && (i == 0 || v@[i - 1] == '/'),
            !exists|i: int, j: int|
                0 <= i < j < k && #[trigger] v@[i] == '.' && (i == 0 || v@[i - 1] == '/') && #[trigger] v@[j] == '/',
        decreases v@.len() - k,
    {
        let c = v[k];
        if c == '/' && seen_dot {
            let ghost i = choose|i: int| 0 <= i < k && #[trigger] v@[i] == '.' && (i == 0 || v@[i - 1] == '/');
            assert(v@[i] == '.' && v@[k as int] == '/');
            return true;
        }
        if c == '.' && (k == 0 || v[k - 1] == '/') {
            seen_dot = true;
        }
        k = k + 1;
    }
    false
}

/// Tells whether some exclusion pattern that compiles matches `path`.
pub fn is_excluded_path(path: &str, patterns: &Vec<String>) -> (r: bool)
    ensures
        r == is_excluded(path@, patterns@),
{
    let mut k: usize = 0;
    while k < patterns.len()
        invariant
            k <= patterns@.len(),
            forall|m: int| 0 <= m < k ==> !(glob_compiles(#[trigger] patterns@[m]@) && glob_matches(patterns@[m]@, path@)),
        decreases patterns@.len() - k,
    {
        match glob_match(patterns[k].as_str(), path) {
            Some(true) => {
                return true;
            },
            _ => {},
        }
        k = k + 1;
    }
    false
}

/// Tells whether a walked file of a folder pair takes part in the sync.
pub fn is_kept_in_walk(path: &str, patterns: &Vec<String>) -> (r: bool)
    ensures
        r == kept_in_walk(path@, patterns@),
{
    is_audio_file(path) && !is_in_hidden_directory(path) && !is_excluded_path(path, patterns)
}

/// Tells whether a file found on a device takes part in the sync.
pub fn is_kept_on_device(path: &str) -> (r: bool)
    ensures
        r == kept_on_device(path@),
{
    is_audio_file(path) && !is_in_hidden_directory(path)
}

/// The path of the copy that keeps the target's version of a conflict:
/// `<stem>_conflict<.ext>` beside the file.
pub open spec fn conflict_path(p: Seq<char>) -> Seq<char> {
    let d = extension_dot(p);
    if d >= 0 {
        p.subrange(0, d) + "_conflict"@ + p.subrange(d, p.len() as int)
    } else {
        p + "_conflict"@
    }
}

/// The relative path of the conflict copy of `rel`.
pub fn conflict_name(rel: &str) -> (r: String)
    ensures
        r@ == conflict_path(rel@),
{
    let v = chars_of(rel);
    let n = v.len();
    let slash = find_last(&v, '/');
    let dot = find_last(&v, '.');
    let after_slash: usize = match slash {
        None => 0,
        Some(s) => s + 1,
    };
    match dot {
        Some(d) => {
            if d > after_slash {
                let mut r = String::from_str(rel.substring_char(0, d));
                r.append("_conflict");
                r.append(rel.substring_char(d, n));
                return r;
            }
        },
        None => {},
    }
    let mut r = String::from_str(rel);
    r.append("_conflict");
    r
}

} // verus!
