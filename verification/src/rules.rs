//! Compiled ignore rule sets.
//!
//! A `RuleSet` wraps a matcher compiled by the `ignore` crate from
//! `.gitignore`-format text relative to a base directory. The matcher is
//! opaque to the library; what its value holds is named by spec
//! functions — `matcher_base`, `matcher_lines`, `ignore_count_of` — and
//! the crate's verdict for a path is named by `rule_match_of`: a pure
//! function of base, text, path, and the is-directory flag. A verdict
//! for a caller comes with the deciding glob's text and source file,
//! which are diagnostics and carry no contract.

use vstd::prelude::*;

verus! {

/// What a rule set says of one path: hidden, deliberately re-included,
/// or not mentioned.
#[derive(PartialEq, Eq, Structural, Clone, Copy, Debug)]
pub enum RuleMatch {
    Ignored,
    Whitelisted,
    Unmatched,
}

/// Where a verdict came from, for diagnostics: the text of the glob that
/// decided, and the ignore file it was read from (empty for an inline
/// rule).
pub struct MatchOrigin {
    pub glob: String,
    pub source: String,
}

#[verifier::external_type_specification]
#[verifier::external_body]
pub struct ExGitignore(ignore::gitignore::Gitignore);

/// The base directory a matcher value was compiled against.
pub uninterp spec fn matcher_base(g: ignore::gitignore::Gitignore) -> Seq<char>;

/// The `.gitignore`-format text a matcher value was compiled from.
pub uninterp spec fn matcher_lines(g: ignore::gitignore::Gitignore) -> Seq<char>;

/// The verdict `ignore::gitignore::Gitignore::matched` returns for a path
/// under a matcher compiled from `lines` relative to `base`. The crate
/// computes it from those values alone.
pub uninterp spec fn rule_match_of(
    base: Seq<char>,
    lines: Seq<char>,
    path: Seq<char>,
    is_dir: bool,
) -> RuleMatch;

/// Whether `ignore::gitignore::GitignoreBuilder::build` succeeds on the
/// globs of `lines` relative to `base`; a pure function of both.
pub uninterp spec fn compiles_of(base: Seq<char>, lines: Seq<char>) -> bool;

/// How many ignore (non-whitelist) globs a matcher value holds: what
/// `ignore::gitignore::Gitignore::num_ignores` reads off it.
pub uninterp spec fn ignore_count_of(g: ignore::gitignore::Gitignore) -> u64;

/// Relies on `ignore::gitignore::GitignoreBuilder`: `new` fixes the base
/// directory, `add_line` adds each line of the text (a line that fails to
/// parse is skipped, as the crate itself skips bad lines when it reads a
/// file), and `build` produces the matcher, failing exactly as
/// `compiles_of` says.
#[verifier::external_body]
fn compile_matcher(base: &str, text: &str) -> (r: Option<ignore::gitignore::Gitignore>)
    ensures
        r is Some <==> compiles_of(base@, text@),
        r matches Some(g) ==> matcher_base(g) == base@ && matcher_lines(g) == text@,
{
    let mut builder = ignore::gitignore::GitignoreBuilder::new(base);
    for line in text.lines() {
        let _ = builder.add_line(None, line);
    }
    builder.build().ok()
}

/// Relies on `ignore::gitignore::GitignoreBuilder::build_global`: it
/// reads whatever global excludes file the machine is configured with —
/// so nothing is stated of the text behind the matcher — and compiles it
/// against the base directory handed to `new`; an error leaves no
/// matcher.
#[verifier::external_body]
fn global_matcher(base: &str) -> (r: Option<ignore::gitignore::Gitignore>)
    ensures
        r matches Some(g) ==> matcher_base(g) == base@,
{
    let builder = ignore::gitignore::GitignoreBuilder::new(base);
    let (matcher, err) = builder.build_global();
    match err {
        Some(_) => None,
        None => Some(matcher),
    }
}

/// Relies on `ignore::gitignore::Gitignore::num_ignores`: how many ignore
/// (non-whitelist) globs the matcher holds. Nothing is stated of the
/// count; callers only branch on it.
#[verifier::external_body]
fn matcher_num_ignores(g: &ignore::gitignore::Gitignore) -> (r: u64)
    ensures
        r == ignore_count_of(*g),
{
    g.num_ignores()
}

/// Relies on `ignore::gitignore::Gitignore::matched`: the verdict depends
/// only on what the matcher was compiled from, the queried path, and the
/// is-directory flag; the three variants of the crate's `Match` are
/// carried over one for one, together with the deciding glob's text and
/// source file for diagnostics.
#[verifier::external_body]
fn matcher_verdict(g: &ignore::gitignore::Gitignore, path: &str, is_dir: bool) -> (m: (
    RuleMatch,
    Option<MatchOrigin>,
))
    ensures
        m.0 == rule_match_of(matcher_base(*g), matcher_lines(*g), path@, is_dir),
{
    match g.matched(path, is_dir) {
        ignore::Match::None => (RuleMatch::Unmatched, None),
        ignore::Match::Ignore(glob) => (RuleMatch::Ignored, Some(MatchOrigin {
            glob: glob.original().to_owned(),
            source: glob.from().map(|p| p.to_string_lossy().into_owned()).unwrap_or_default(),
        })),
        ignore::Match::Whitelist(glob) => (RuleMatch::Whitelisted, Some(MatchOrigin {
            glob: glob.original().to_owned(),
            source: glob.from().map(|p| p.to_string_lossy().into_owned()).unwrap_or_default(),
        })),
    }
}

/// A compiled, immutable, freely shareable set of ignore rules.
pub struct RuleSet {
    matcher: ignore::gitignore::Gitignore,
}

impl RuleSet {
    /// The base directory the rules were compiled against.
    pub closed spec fn base(&self) -> Seq<char> {
        matcher_base(self.matcher)
    }

    /// The `.gitignore`-format text the rules were compiled from.
    pub closed spec fn lines(&self) -> Seq<char> {
        matcher_lines(self.matcher)
    }

    /// How many ignore (non-whitelist) globs this rule set holds.
    pub closed spec fn ignore_count(&self) -> u64 {
        ignore_count_of(self.matcher)
    }

    /// Compile `.gitignore`-format text relative to `base`; `None`
    /// exactly when the crate's builder fails on this text.
    pub fn compile(base: &str, text: &str) -> (r: Option<RuleSet>)
        ensures
            r is Some <==> compiles_of(base@, text@),
            r matches Some(rs) ==> rs.base() == base@ && rs.lines() == text@,
    {
        match compile_matcher(base, text) {
            Some(matcher) => Some(RuleSet { matcher }),
            None => None,
        }
    }

    /// The crate's verdict for `path`.
    pub fn matched(&self, path: &str, is_dir: bool) -> (m: RuleMatch)
        ensures
            m == rule_match_of(self.base(), self.lines(), path@, is_dir),
    {
        let (kind, _) = matcher_verdict(&self.matcher, path, is_dir);
        kind
    }

    /// The crate's verdict for `path`, together with the deciding glob's
    /// text and source file for diagnostics.
    pub fn matched_with_origin(&self, path: &str, is_dir: bool) -> (m: (
        RuleMatch,
        Option<MatchOrigin>,
    ))
        ensures
            m.0 == rule_match_of(self.base(), self.lines(), path@, is_dir),
    {
        matcher_verdict(&self.matcher, path, is_dir)
    }

    /// The user's global ignore rules, compiled against `base`: present
    /// only when a global excludes file exists, loads cleanly, and holds
    /// at least one ignore glob.
    pub fn load_global(base: &str) -> (r: Option<RuleSet>)
        ensures
            r matches Some(rs) ==> rs.base() == base@ && rs.ignore_count() > 0,
    {
        match global_matcher(base) {
            None => None,
            Some(matcher) => {
                if matcher_num_ignores(&matcher) > 0 {
                    Some(RuleSet { matcher })
                } else {
                    None
                }
            },
        }
    }
}

} // verus!
