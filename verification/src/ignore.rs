//! The ignore matcher: the patterns that keep a path out of the report.

use crate::text::{lossy_text, path_text};
use regex::Regex;
use vstd::prelude::*;
use vstd::string::StringExecFns;

verus! {

/// `regex::Regex`: a compiled regular expression. The library carries it
/// and knows of it only the pattern that it was made from.
#[verifier::external_type_specification]
#[verifier::external_body]
pub struct ExRegex(regex::Regex);

/// Whether the regex crate accepts the pattern.
pub uninterp spec fn regex_valid(pattern: Seq<char>) -> bool;

/// The pattern from which a compiled regular expression was made.
pub uninterp spec fn regex_source(re: Regex) -> Seq<char>;

/// Whether the regular expression made from the pattern finds a match
/// somewhere in the text.
pub uninterp spec fn regex_matches(pattern: Seq<char>, text: Seq<char>) -> bool;

/// The characters that mean something in a pattern.
pub open spec fn is_meta_character(c: char) -> bool {
    c == '\\' || c == '.' || c == '+' || c == '*' || c == '?' || c == '(' || c == ')' || c == '|'
        || c == '[' || c == ']' || c == '{' || c == '}' || c == '^' || c == '$' || c == '#' || c
        == '&' || c == '-' || c == '~'
}

/// The text with a backslash before each character that means something in
/// a pattern.
pub open spec fn escaped(text: Seq<char>) -> Seq<char>
    decreases text.len(),
{
    if text.len() == 0 {
        Seq::empty()
    } else if is_meta_character(text.last()) {
        escaped(text.drop_last()).push('\\').push(text.last())
    } else {
        escaped(text.drop_last()).push(text.last())
    }
}

/// `Regex::new`: compiles a pattern. It succeeds exactly on the patterns
/// that the crate accepts, and the compiled expression remembers the
/// pattern (`Regex::as_str` returns it).
#[verifier::external_body]
fn compile_regex(pattern: &str) -> (compiled: Option<Regex>)
    ensures
        compiled.is_some() == regex_valid(pattern@),
        match compiled {
            Some(re) => regex_source(re) == pattern@,
            None => true,
        },
{
    Regex::new(pattern).ok()
}

/// `Regex::is_match`: tells whether the expression finds a match somewhere
/// in the text. The result depends on the pattern and the text alone for
/// an expression that `Regex::new` made; `compile_regex` is the only maker
/// of the expressions that reach this function.
#[verifier::external_body]
fn regex_is_match(re: &Regex, text: &str) -> (found: bool)
    ensures
        found == regex_matches(regex_source(*re), text@),
{
    re.is_match(text)
}

/// `regex::escape`: puts a backslash before each character of the text
/// that means something in a pattern, and leaves the others as they are.
#[verifier::external_body]
fn escape(text: &str) -> (quoted: String)
    ensures
        quoted@ == escaped(text@),
{
    regex::escape(text)
}

/// The pattern for a directory and all that lies under it.
pub open spec fn dir_pattern_of(dir: Seq<char>) -> Seq<char> {
    "^"@ + escaped(dir) + "($|/.*)"@
}

/// The pattern for one file.
pub open spec fn file_pattern_of(file: Seq<char>) -> Seq<char> {
    "^"@ + escaped(file) + "$"@
}

/// The views of a list of texts.
pub open spec fn texts_of(s: Seq<String>) -> Seq<Seq<char>> {
    s.map_values(|t: String| t@)
}

/// The patterns that are always active: the extracted certificate store,
/// the directories for temporary files, logs and caches, and Python's
/// bytecode caches.
pub open spec fn global_patterns() -> Seq<Seq<char>> {
    seq![
        "^/etc/pki/ca-trust/extracted($|/.*)"@,
        "^/tmp($|/.*)"@,
        "^/var/log($|/.*)"@,
        "^/var/cache($|/.*)"@,
        "^/var/tmp($|/.*)"@,
        ".*?/__pycache__($|/.*)"@,
    ]
}

/// The patterns that a user's choices stand for: the regular expressions as
/// they are, then a pattern for each directory, then one for each file.
pub open spec fn user_patterns(
    regexes: Seq<Seq<char>>,
    dirs: Seq<Seq<char>>,
    files: Seq<Seq<char>>,
) -> Seq<Seq<char>> {
    regexes + dirs.map_values(|d: Seq<char>| dir_pattern_of(d)) + files.map_values(
        |f: Seq<char>| file_pattern_of(f),
    )
}

/// Some pattern of the list finds a match in the text.
pub open spec fn matches_any(patterns: Seq<Seq<char>>, text: Seq<char>) -> bool {
    exists|i: int| 0 <= i < patterns.len() && regex_matches(#[trigger] patterns[i], text)
}

/// Some pattern of the list finds a match in the path, read as text.
pub open spec fn path_ignored(patterns: Seq<Seq<char>>, path: Seq<u8>) -> bool {
    matches_any(patterns, lossy_text(path))
}

/// The patterns of a list that the regex crate accepts, in the list's order.
pub open spec fn accepted(patterns: Seq<Seq<char>>) -> Seq<Seq<char>> {
    patterns.filter(|p: Seq<char>| regex_valid(p))
}

/// The patterns of a list that the regex crate refuses, in the list's order.
pub open spec fn refused(patterns: Seq<Seq<char>>) -> Seq<Seq<char>> {
    patterns.filter(|p: Seq<char>| !regex_valid(p))
}

/// Tells whether the text can be used as a pattern.
pub fn is_valid_pattern(pattern: &str) -> (valid: bool)
    ensures
        valid == regex_valid(pattern@),
{
    compile_regex(pattern).is_some()
}

/// Makes the pattern that matches a directory and all that lies under it.
pub fn dir_pattern(dir: &str) -> (pattern: String)
    ensures
        pattern@ == dir_pattern_of(dir@),
{
    let mut pattern = String::from_str("^");
    let quoted = escape(dir);
    pattern.append(quoted.as_str());
    pattern.append("($|/.*)");
    pattern
}

/// Makes the pattern that matches one file.
pub fn file_pattern(file: &str) -> (pattern: String)
    ensures
        pattern@ == file_pattern_of(file@),
{
    let mut pattern = String::from_str("^");
    let quoted = escape(file);
    pattern.append(quoted.as_str());
    pattern.append("$");
    pattern
}

/// Lists the patterns that are always active.
pub fn global_ignores() -> (patterns: Vec<String>)
    ensures
        texts_of(patterns@) == global_patterns(),
{
    let mut patterns: Vec<String> = Vec::new();
    patterns.push(String::from_str("^/etc/pki/ca-trust/extracted($|/.*)"));
    patterns.push(String::from_str("^/tmp($|/.*)"));
    patterns.push(String::from_str("^/var/log($|/.*)"));
    patterns.push(String::from_str("^/var/cache($|/.*)"));
    patterns.push(String::from_str("^/var/tmp($|/.*)"));
    patterns.push(String::from_str(".*?/__pycache__($|/.*)"));
    assert(texts_of(patterns@) =~= global_patterns());
    patterns
}

/// Turns a user's choices into patterns: the regular expressions as they
/// are, then a pattern for each directory, then one for each file.
pub fn user_ignores(regexes: &Vec<String>, dirs: &Vec<String>, files: &Vec<String>) -> (patterns:
    Vec<String>)
    ensures
        texts_of(patterns@) == user_patterns(texts_of(regexes@), texts_of(dirs@), texts_of(files@)),
{
    let mut patterns: Vec<String> = Vec::new();
    let mut i: usize = 0;
    while i < regexes.len()
        invariant
            i <= regexes.len(),
            texts_of(patterns@) == texts_of(regexes@).take(i as int),
        decreases regexes.len() - i,
    {
        let copy = regexes[i].clone();
        assert(texts_of(patterns@.push(copy)) =~= texts_of(patterns@).push(copy@));
        assert(texts_of(regexes@).take(i + 1) =~= texts_of(regexes@).take(i as int).push(
            regexes@[i as int]@,
        ));
        patterns.push(copy);
        i += 1;
    }
    assert(texts_of(regexes@).take(i as int) =~= texts_of(regexes@));
    let ghost for_dirs = texts_of(dirs@).map_values(|d: Seq<char>| dir_pattern_of(d));
    let mut j: usize = 0;
    while j < dirs.len()
        invariant
            j <= dirs.len(),
            for_dirs == texts_of(dirs@).map_values(|d: Seq<char>| dir_pattern_of(d)),
            texts_of(patterns@) == texts_of(regexes@) + for_dirs.take(j as int),
        decreases dirs.len() - j,
    {
        let pattern = dir_pattern(dirs[j].as_str());
        assert(texts_of(patterns@.push(pattern)) =~= texts_of(patterns@).push(pattern@));
        assert(for_dirs.take(j + 1) =~= for_dirs.take(j as int).push(pattern@));
        assert(texts_of(regexes@) + for_dirs.take(j + 1) =~= (texts_of(regexes@) + for_dirs.take(
            j as int,
        )).push(pattern@));
        patterns.push(pattern);
        j += 1;
    }
    assert(for_dirs.take(j as int) =~= for_dirs);
    let ghost for_files = texts_of(files@).map_values(|f: Seq<char>| file_pattern_of(f));
    let mut k: usize = 0;
    while k < files.len()
        invariant
            k <= files.len(),
            for_files == texts_of(files@).map_values(|f: Seq<char>| file_pattern_of(f)),
            texts_of(patterns@) == texts_of(regexes@) + for_dirs + for_files.take(k as int),
        decreases files.len() - k,
    {
        let pattern = file_pattern(files[k].as_str());
        assert(texts_of(patterns@.push(pattern)) =~= texts_of(patterns@).push(pattern@));
        assert(for_files.take(k + 1) =~= for_files.take(k as int).push(pattern@));
        assert(texts_of(regexes@) + for_dirs + for_files.take(k + 1) =~= (texts_of(regexes@)
            + for_dirs + for_files.take(k as int)).push(pattern@));
        patterns.push(pattern);
        k += 1;
    }
    assert(for_files.take(k as int) =~= for_files);
    patterns
}

/// The compiled patterns of one run, in the order in which they were given.
pub struct IgnoreMatcher {
    regexes: Vec<Regex>,
}

impl IgnoreMatcher {
    /// The patterns that the matcher holds, in order.
    pub closed spec fn patterns(&self) -> Seq<Seq<char>> {
        self.regexes@.map_values(|re: Regex| regex_source(re))
    }

    /// Compiles the patterns that are always active, then those of the
    /// package manager, then the user's. A pattern that the regex crate
    /// refuses is left out of the matcher and handed back in `rejected`.
    pub fn build(manager: &Vec<String>, user: &Vec<String>) -> (built: (IgnoreMatcher, Vec<String>))
        ensures
            built.0.patterns() == accepted(
                global_patterns() + texts_of(manager@) + texts_of(user@),
            ),
            texts_of(built.1@) == refused(global_patterns() + texts_of(manager@) + texts_of(user@)),
    {
        let mut matcher = IgnoreMatcher { regexes: Vec::new() };
        let mut rejected: Vec<String> = Vec::new();
        let global = global_ignores();
        assert(matcher.patterns() =~= Seq::<Seq<char>>::empty());
        assert(texts_of(rejected@) =~= Seq::<Seq<char>>::empty());
        proof {
            reveal(Seq::filter);
            assert(accepted(Seq::<Seq<char>>::empty()) =~= Seq::<Seq<char>>::empty());
            assert(refused(Seq::<Seq<char>>::empty()) =~= Seq::<Seq<char>>::empty());
        }
        let ghost none = Seq::<Seq<char>>::empty();
        matcher.add_all(&mut rejected, &global, Ghost(none));
        assert(none + global_patterns() =~= global_patterns());
        matcher.add_all(&mut rejected, manager, Ghost(global_patterns()));
        matcher.add_all(&mut rejected, user, Ghost(global_patterns() + texts_of(manager@)));
        (matcher, rejected)
    }

    /// Compiles each pattern of `source` in turn: the accepted ones join the
    /// matcher, the refused ones join `rejected`.
    fn add_all(&mut self, rejected: &mut Vec<String>, source: &Vec<String>, Ghost(before): Ghost<
        Seq<Seq<char>>,
    >)
        requires
            old(self).patterns() == accepted(before),
            texts_of(old(rejected)@) == refused(before),
        ensures
            final(self).patterns() == accepted(before + texts_of(source@)),
            texts_of(final(rejected)@) == refused(before + texts_of(source@)),
    {
        let mut i: usize = 0;
        assert(before + texts_of(source@).take(0) =~= before);
        while i < source.len()
            invariant
                i <= source.len(),
                self.patterns() == accepted(before + texts_of(source@).take(i as int)),
                texts_of(rejected@) == refused(before + texts_of(source@).take(i as int)),
            decreases source.len() - i,
        {
            let ghost done = before + texts_of(source@).take(i as int);
            let ghost p = source@[i as int]@;
            proof {
                assert(before + texts_of(source@).take(i + 1) =~= done.push(p));
                done.lemma_filter_push(p, |p: Seq<char>| regex_valid(p));
                done.lemma_filter_push(p, |p: Seq<char>| !regex_valid(p));
            }
            match compile_regex(source[i].as_str()) {
                Some(re) => {
                    assert(self.regexes@.push(re).map_values(|re: Regex| regex_source(re))
                        =~= self.patterns().push(p));
                    self.regexes.push(re);
                },
                None => {
                    let copy = source[i].clone();
                    assert(texts_of(rejected@.push(copy)) =~= texts_of(rejected@).push(p));
                    rejected.push(copy);
                },
            }
            i += 1;
        }
        assert(texts_of(source@).take(i as int) =~= texts_of(source@));
    }

    /// Tells whether some pattern finds a match in the path. The path is
    /// read as text, with U+FFFD in place of what is not UTF-8.
    pub fn is_ignored(&self, path: &[u8]) -> (ignored: bool)
        ensures
            ignored == path_ignored(self.patterns(), path@),
    {
        let text = path_text(path);
        let mut i: usize = 0;
        while i < self.regexes.len()
            invariant
                i <= self.regexes.len(),
                text@ == lossy_text(path@),
                forall|k: int| 0 <= k < i ==> !regex_matches(#[trigger] self.patterns()[k], text@),
            decreases self.regexes.len() - i,
        {
            if regex_is_match(&self.regexes[i], text.as_str()) {
                assert(regex_matches(self.patterns()[i as int], text@));
                return true;
            }
            i += 1;
        }
        false
    }
}

} // verus!
