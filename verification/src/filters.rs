//! File filtering: extensions, likely binary files and ignore patterns.
use vstd::prelude::*;

use crate::paths::{extension, extension_of, file_name, file_name_of, forward_slashes, relative_to, strip_prefix, to_forward_slashes};
use crate::text::{
    chars_of, contains_chars, contains_seq, eq_ignore_ascii_case, eq_ignore_ascii_case_seq, split_chars,
    split_on, string_from_chars, text_eq, views,
};

verus! {

#[verifier::external_type_specification]
#[verifier::external_body]
pub struct ExGlobPattern(glob::Pattern);

/// Whether `glob::Pattern::new` accepts `pattern`.
pub uninterp spec fn glob_valid(pattern: Seq<char>) -> bool;

/// Whether `glob::Pattern::matches` finds that `pattern` matches `text`
/// (case-sensitive, `*` may match `/`).
pub uninterp spec fn glob_matches(pattern: Seq<char>, text: Seq<char>) -> bool;

/// Whether `glob::Pattern::matches_with` finds that `pattern` matches
/// `text` when case-sensitive and `/` must be matched literally.
pub uninterp spec fn glob_matches_path(pattern: Seq<char>, text: Seq<char>) -> bool;

/// A compiled glob pattern together with its text.
#[derive(Debug)]
pub struct GlobPattern {
    source: String,
    pattern: glob::Pattern,
}

impl GlobPattern {
    /// The glob text this pattern was compiled from.
    pub closed spec fn source(&self) -> Seq<char> {
        self.source@
    }

    /// Compiles a glob pattern.
    ///
    /// Trusted: calls `glob::Pattern::new`, which succeeds exactly on the
    /// patterns named by `glob_valid`.
    #[verifier::external_body]
    pub(crate) fn compile(source: &str) -> (r: Option<Self>)
        ensures
            r is Some <==> glob_valid(source@),
            r matches Some(g) ==> g.source() == source@,
    {
        match glob::Pattern::new(source) {
            Ok(pattern) => Some(GlobPattern { source: source.to_string(), pattern }),
            Err(_) => None,
        }
    }

    /// Matches with the default options.
    ///
    /// Trusted: calls `glob::Pattern::matches`; named by `glob_matches`.
    #[verifier::external_body]
    pub(crate) fn matches(&self, text: &str) -> (b: bool)
        ensures
            b == glob_matches(self.source(), text@),
    {
        self.pattern.matches(text)
    }

    /// Matches a `/`-separated path: case-sensitive, with separators
    /// matched literally.
    ///
    /// Trusted: calls `glob::Pattern::matches_with` with `case_sensitive`
    /// and `require_literal_separator` set and `require_literal_leading_dot`
    /// unset; named by `glob_matches_path`.
    #[verifier::external_body]
    pub(crate) fn matches_path(&self, text: &str) -> (b: bool)
        ensures
            b == glob_matches_path(self.source(), text@),
    {
        let opts = glob::MatchOptions { case_sensitive: true, require_literal_separator: true, require_literal_leading_dot: false };
        self.pattern.matches_with(text, opts)
    }
}

/// Some extension in `exts` equals `e` when ASCII case is ignored.
pub open spec fn extension_listed(exts: Seq<String>, e: Seq<char>) -> bool {
    exists|i: int| 0 <= i < exts.len() && eq_ignore_ascii_case_seq(#[trigger] exts[i]@, e)
}

/// A path has a wanted extension: any path when no extensions are given,
/// otherwise one whose extension is listed (ignoring ASCII case).
pub open spec fn valid_extension(path: Seq<char>, extensions: Option<Vec<String>>) -> bool {
    match extensions {
        None => true,
        Some(v) => match extension_of(path) {
            Some(e) => extension_listed(v@, e),
            None => false,
        },
    }
}

/// A path is searched, when extensions are given, exactly when its
/// extension equals one of them, at any position in the list, ignoring
/// ASCII case.
pub proof fn lemma_any_listed_extension(path: Seq<char>, exts: Vec<String>, i: int)
    requires
        0 <= i < exts@.len(),
    ensures
        extension_of(path) matches Some(e) && eq_ignore_ascii_case_seq(exts@[i]@, e) ==> valid_extension(
            path,
            Some(exts),
        ),
        extension_of(path) matches Some(e) && (forall|j: int|
            0 <= j < exts@.len() ==> !eq_ignore_ascii_case_seq(#[trigger] exts@[j]@, e)) ==> !valid_extension(
            path,
            Some(exts),
        ),
        extension_of(path) matches Some(e) && exts@[i]@ == e ==> valid_extension(path, Some(exts)),
        extension_of(path) is None ==> !valid_extension(path, Some(exts)),
        valid_extension(path, None),
{
    if let Some(e) = extension_of(path) {
        if exts@[i]@ == e {
            assert(eq_ignore_ascii_case_seq(exts@[i]@, e));
        }
    }
}

fn listed(exts: &Vec<String>, e: &[char]) -> (b: bool)
    ensures
        b == extension_listed(exts@, e@),
{
    let mut i: usize = 0;
    while i < exts.len()
        invariant
            0 <= i <= exts@.len(),
            forall|j: int| 0 <= j < i ==> !eq_ignore_ascii_case_seq(#[trigger] exts@[j]@, e@),
        decreases exts@.len() - i,
    {
        let x = chars_of(exts[i].as_str());
        if eq_ignore_ascii_case(&x, e) {
            return true;
        }
        i = i + 1;
    }
    false
}

/// Checks if a file should be included in the search based on its
/// extension (see [`valid_extension`]).
pub fn has_valid_extension(path: &str, extensions: &Option<Vec<String>>) -> (b: bool)
    ensures
        b == valid_extension(path@, *extensions),
{
    match extensions {
        None => true,
        Some(exts) => match extension(path) {
            Some(e) => {
                let ec = chars_of(e.as_str());
                listed(exts, &ec)
            },
            None => false,
        },
    }
}

/// Extensions of common binary file types.
pub open spec fn binary_extensions() -> Seq<Seq<char>> {
    seq![
        "exe"@,
        "dll"@,
        "so"@,
        "dylib"@,
        "bin"@,
        "obj"@,
        "o"@,
        "class"@,
        "jar"@,
        "war"@,
        "ear"@,
        "png"@,
        "jpg"@,
        "jpeg"@,
        "gif"@,
        "bmp"@,
        "ico"@,
        "pdf"@,
        "doc"@,
        "docx"@,
        "xls"@,
        "xlsx"@,
        "zip"@,
        "tar"@,
        "gz"@,
        "7z"@,
        "rar"@,
    ]
}

/// A path whose extension is one of the binary extensions (ignoring ASCII
/// case).
pub open spec fn likely_binary(path: Seq<char>) -> bool {
    match extension_of(path) {
        Some(e) => exists|i: int|
            0 <= i < binary_extensions().len() && eq_ignore_ascii_case_seq(
                #[trigger] binary_extensions()[i],
                e,
            ),
        None => false,
    }
}

/// Checks if a file is likely to be binary (see [`likely_binary`]).
pub fn is_likely_binary(path: &str) -> (b: bool)
    ensures
        b == likely_binary(path@),
{
    let list = vec![
        "exe",
        "dll",
        "so",
        "dylib",
        "bin",
        "obj",
        "o",
        "class",
        "jar",
        "war",
        "ear",
        "png",
        "jpg",
        "jpeg",
        "gif",
        "bmp",
        "ico",
        "pdf",
        "doc",
        "docx",
        "xls",
        "xlsx",
        "zip",
        "tar",
        "gz",
        "7z",
        "rar",
    ];
    assert(list@.map_values(|s: &str| s@) =~= binary_extensions());
    match extension(path) {
        None => false,
        Some(e) => {
            let ec = chars_of(e.as_str());
            let mut i: usize = 0;
            while i < list.len()
                invariant
                    0 <= i <= list@.len(),
                    list@.map_values(|s: &str| s@) == binary_extensions(),
                    extension_of(path@) == Some(ec@),
                    forall|j: int|
                        0 <= j < i ==> !eq_ignore_ascii_case_seq(
                            #[trigger] binary_extensions()[j],
                            ec@,
                        ),
                decreases list@.len() - i,
            {
                let x = chars_of(list[i]);
                assert(binary_extensions()[i as int] == list@[i as int]@);
                if eq_ignore_ascii_case(&x, &ec) {
                    assert(eq_ignore_ascii_case_seq(binary_extensions()[i as int], ec@));
                    return true;
                }
                i = i + 1;
            }
            false
        },
    }
}

/// `path` relative to `root_path` with forward slashes; the whole path
/// when it is not under `root_path`.
pub open spec fn relative_slash_path(path: Seq<char>, root_path: Seq<char>) -> Seq<char> {
    forward_slashes(
        match relative_to(path, root_path) {
            Some(r) => r,
            None => path,
        },
    )
}

/// Converts `path` into a relative path (with forward slashes) relative to
/// `root_path` (see [`relative_slash_path`]).
pub fn to_relative_slash_path(path: &str, root_path: &str) -> (r: String)
    ensures
        r@ == relative_slash_path(path@, root_path@),
{
    match strip_prefix(path, root_path) {
        Some(rel) => to_forward_slashes(rel.as_str()),
        None => to_forward_slashes(path),
    }
}

/// A single ignore pattern applies: without a `/` it is the file name or a
/// glob that matches the file name; with one it is a glob matched against
/// the relative path.
pub open spec fn ignored_by(pattern: Seq<char>, name: Seq<char>, rel: Seq<char>) -> bool {
    if !contains_seq(pattern, seq!['/']) {
        name == pattern || (glob_valid(pattern) && glob_matches(pattern, name))
    } else {
        glob_valid(pattern) && glob_matches_path(pattern, rel)
    }
}

/// The file name of a path, or the empty text.
pub open spec fn name_or_empty(path: Seq<char>) -> Seq<char> {
    match file_name_of(path) {
        Some(n) => n,
        None => seq![],
    }
}

/// The relative path lies in a built-in ignored directory: one of its
/// components is `.git`, or one of its directory components is `target`.
pub open spec fn in_builtin_ignored_dir(rel: Seq<char>) -> bool {
    let c = split_on(rel, '/');
    exists|i: int|
        0 <= i < c.len() && (#[trigger] c[i] == ".git"@ || (i < c.len() - 1 && c[i] == "target"@))
}

/// A path is ignored: it lies in a `.git` or `target` directory below the
/// root or is named `.git`, or one of the patterns applies (see
/// [`ignored_by`]).
pub open spec fn ignored(path: Seq<char>, root_path: Seq<char>, patterns: Seq<String>) -> bool {
    let name = name_or_empty(path);
    let rel = relative_slash_path(path, root_path);
    in_builtin_ignored_dir(rel) || contains_seq(rel, "/.git/"@) || contains_seq(rel, "\\.git\\"@)
        || name == ".git"@ || exists|
        i: int,
    |
        0 <= i < patterns.len() && ignored_by(#[trigger] patterns[i]@, name, rel)
}

fn same_chars(a: &[char], b: &[char]) -> (r: bool)
    ensures
        r == (a@ == b@),
{
    if a.len() != b.len() {
        return false;
    }
    let mut i: usize = 0;
    while i < a.len()
        invariant
            a@.len() == b@.len(),
            0 <= i <= a@.len(),
            forall|j: int| 0 <= j < i ==> a@[j] == b@[j],
        decreases a@.len() - i,
    {
        if a[i] != b[i] {
            return false;
        }
        i = i + 1;
    }
    assert(a@ =~= b@);
    true
}

fn in_builtin_dir_exec(rel: &[char]) -> (b: bool)
    ensures
        b == in_builtin_ignored_dir(rel@),
{
    let comps = split_chars(rel, '/');
    let ghost c = split_on(rel@, '/');
    assert(views(comps@) == c);
    let mut i: usize = 0;
    while i < comps.len()
        invariant
            0 <= i <= comps@.len(),
            c == split_on(rel@, '/'),
            views(comps@) == c,
            forall|j: int|
                0 <= j < i ==> !(#[trigger] c[j] == ".git"@ || (j < c.len() - 1 && c[j] == "target"@)),
        decreases comps@.len() - i,
    {
        assert(c[i as int] == comps@[i as int]@);
        let is_git = text_eq(comps[i].as_str(), ".git");
        let is_target = text_eq(comps[i].as_str(), "target");
        if is_git || (i + 1 < comps.len() && is_target) {
            return true;
        }
        i = i + 1;
    }
    false
}

/// Checks if a file should be ignored based on ignore patterns (see
/// [`ignored`]).
pub fn should_ignore(path: &str, root_path: &str, ignore_patterns: &Vec<String>) -> (b: bool)
    ensures
        b == ignored(path@, root_path@, ignore_patterns@),
{
    let name: Vec<char> = match file_name(path) {
        Some(n) => chars_of(n.as_str()),
        None => Vec::new(),
    };
    assert(name@ == name_or_empty(path@));
    let rel_s = to_relative_slash_path(path, root_path);
    let rel = chars_of(rel_s.as_str());
    let git_dir = chars_of("/.git/");
    let git_dir_win = chars_of("\\.git\\");
    let git = chars_of(".git");
    if in_builtin_dir_exec(&rel) || contains_chars(&rel, &git_dir) || contains_chars(&rel, &git_dir_win) || same_chars(
        &name,
        &git,
    ) {
        return true;
    }
    let slash = vec!['/'];
    assert(slash@ =~= seq!['/']);
    let mut i: usize = 0;
    while i < ignore_patterns.len()
        invariant
            0 <= i <= ignore_patterns@.len(),
            slash@ == seq!['/'],
            name@ == name_or_empty(path@),
            rel@ == relative_slash_path(path@, root_path@),
            rel_s@ == rel@,
            forall|j: int|
                0 <= j < i ==> !ignored_by(#[trigger] ignore_patterns@[j]@, name@, rel@),
        decreases ignore_patterns@.len() - i,
    {
        let p = chars_of(ignore_patterns[i].as_str());
        if !contains_chars(&p, &slash) {
            if same_chars(&name, &p) {
                assert(ignored_by(ignore_patterns@[i as int]@, name@, rel@));
                return true;
            }
            match GlobPattern::compile(ignore_patterns[i].as_str()) {
                Some(g) => {
                    let name_s = string_from_chars(&name);
                    if g.matches(name_s.as_str()) {
                        assert(ignored_by(ignore_patterns@[i as int]@, name@, rel@));
                        return true;
                    }
                },
                None => {},
            }
        } else {
            match GlobPattern::compile(ignore_patterns[i].as_str()) {
                Some(g) => {
                    if g.matches_path(rel_s.as_str()) {
                        assert(ignored_by(ignore_patterns@[i as int]@, name@, rel@));
                        return true;
                    }
                },
                None => {},
            }
        }
        i = i + 1;
    }
    false
}

/// Determines if a file should be included in the search: not likely
/// binary, with a wanted extension, and not ignored.
pub fn should_include_file(
    path: &str,
    root_path: &str,
    extensions: &Option<Vec<String>>,
    ignore_patterns: &Vec<String>,
) -> (b: bool)
    ensures
        b == (!likely_binary(path@) && valid_extension(path@, *extensions) && !ignored(
            path@,
            root_path@,
            ignore_patterns@,
        )),
{
    !is_likely_binary(path) && has_valid_extension(path, extensions) && !should_ignore(
        path,
        root_path,
        ignore_patterns,
    )
}

} // verus!
