//! Ignore rules. The `ignore` crate compiles them and matches paths against
//! them; what a rule means is its business.

use crate::scan::entry::Entry;
use crate::scan::entry::Verdict;
use crate::utility::text::texts;
use ignore::gitignore::Gitignore;
use ignore::gitignore::GitignoreBuilder;
use vstd::prelude::*;

verus! {

/// `ignore::gitignore::Gitignore`: a compiled set of rules. Nothing of its
/// inside is known here.
#[verifier::external_type_specification]
#[verifier::external_body]
pub struct ExGitignore(ignore::gitignore::Gitignore);

/// `ignore::gitignore::GitignoreBuilder`: rules that are being collected.
/// Nothing of its inside is known here.
#[verifier::external_type_specification]
#[verifier::external_body]
pub struct ExGitignoreBuilder(ignore::gitignore::GitignoreBuilder);

/// `ignore::Error`: why the `ignore` crate refused something. Nothing of
/// its inside is known here.
#[verifier::external_type_specification]
#[verifier::external_body]
pub struct ExIgnoreError(ignore::Error);

/// How a set of rules answers for one path.
#[derive(Clone, Copy, Debug, PartialEq, Eq, Structural)]
pub enum RuleMatch {
    /// No rule speaks of the path: the answer is left to the rules of the
    /// directories above.
    Unmatched,
    /// The deciding rule excludes the path.
    Ignored,
    /// The deciding rule takes the path back in.
    Whitelisted,
}

/// A compiled set of ignore rules.
pub struct RuleSet {
    matcher: Gitignore,
}

/// What `Gitignore::matched` answers, for the rules of a set, for a path
/// and its directory flag.
pub uninterp spec fn rule_match(rules: RuleSet, path: Seq<char>, is_directory: bool) -> RuleMatch;

/// Whether a builder has the settings that `GitignoreBuilder::new` gives
/// it, and has had no others: it tells upper case from lower case, and
/// takes a bracket that is never closed for the character itself.
pub uninterp spec fn has_first_settings(builder: GitignoreBuilder) -> bool;

/// What a builder holds: the texts of its globs, in the order in which
/// they were added.
pub uninterp spec fn held_globs(builder: GitignoreBuilder) -> Seq<Seq<char>>;

/// The directory that the rules of a builder are matched against.
pub uninterp spec fn builder_root(builder: GitignoreBuilder) -> Seq<char>;

/// What a compiled set holds: the texts of its globs, in order.
pub uninterp spec fn set_globs(set: Gitignore) -> Seq<Seq<char>>;

/// The directory that the rules of a compiled set are matched against.
pub uninterp spec fn set_root(set: Gitignore) -> Seq<char>;

/// What `GitignoreBuilder::add_line`, on a builder with the first settings,
/// does with a line: `None` where it refuses the line, else the texts of
/// the globs that it adds, which are none for a comment or a blank line
/// and one for any other line.
pub uninterp spec fn added_by(line: Seq<char>) -> Option<Seq<Seq<char>>>;

/// Whether `GitignoreBuilder::build` succeeds on a builder that has always
/// had the first settings and holds these globs.
pub uninterp spec fn globs_build(globs: Seq<Seq<char>>) -> bool;

/// Whether a line of a rule file is taken: it is a comment, or blank, or a
/// glob that can be parsed.
pub open spec fn line_is_rule(line: Seq<char>) -> bool {
    added_by(line) is Some
}

/// `Gitignore::matched`: the answer of the rule that decides for `path`,
/// the last one that matches it. The call reads no file and depends on
/// nothing but the compiled rules, the path and the flag; the contract
/// gives its answer that name. A set that holds no glob matches nothing.
#[verifier::external_body]
fn matched(rules: &RuleSet, path: &str, is_directory: bool) -> (answer: RuleMatch)
    ensures
        answer == rule_match(*rules, path@, is_directory),
        set_globs(rules.matcher).len() == 0 ==> answer == RuleMatch::Unmatched,
{
    match rules.matcher.matched(path, is_directory) {
        ignore::Match::None => RuleMatch::Unmatched,
        ignore::Match::Ignore(_) => RuleMatch::Ignored,
        ignore::Match::Whitelist(_) => RuleMatch::Whitelisted,
    }
}

/// `GitignoreBuilder::new`: a builder that holds no glob and has the first
/// settings. It keeps `root` as the directory to match against, without a
/// `./` that `root` may begin with; so a root that does not begin with `.`
/// is kept as it is, which is all that is claimed of the root.
#[verifier::external_body]
fn builder_new(root: &str) -> (builder: GitignoreBuilder)
    ensures
        has_first_settings(builder),
        held_globs(builder) == Seq::<Seq<char>>::empty(),
        root@.len() == 0 || root@[0] != '.' ==> builder_root(builder) == root@,
{
    GitignoreBuilder::new(root)
}

/// `GitignoreBuilder::add_line`: adds one line of a rule file. A comment
/// or a blank line is taken and adds nothing; any other line is parsed as
/// a glob and, if that succeeds, added behind the globs that are held; a
/// line whose glob cannot be parsed is refused and adds nothing. The call
/// changes neither setting nor root, and what it does depends on the line
/// and the settings alone; the contract gives that the name `added_by`.
#[verifier::external_body]
fn builder_add_line(builder: &mut GitignoreBuilder, line: &str) -> (added: Result<
    (),
    ignore::Error,
>)
    requires
        has_first_settings(*old(builder)),
    ensures
        has_first_settings(*final(builder)),
        builder_root(*final(builder)) == builder_root(*old(builder)),
        added is Ok <==> added_by(line@) is Some,
        held_globs(*final(builder)) == match added_by(line@) {
            Some(globs) => held_globs(*old(builder)) + globs,
            None => held_globs(*old(builder)),
        },
{
    match builder.add_line(None, line) {
        Ok(_) => Ok(()),
        Err(error) => Err(error),
    }
}

/// `GitignoreBuilder::build`: compiles the globs that the builder holds
/// into a set that holds the same globs and matches against the same root.
/// Whether that succeeds depends on the globs and the settings they were
/// added under; the contract gives it the name `globs_build`.
#[verifier::external_body]
fn builder_build(builder: &GitignoreBuilder) -> (built: Result<Gitignore, ignore::Error>)
    requires
        has_first_settings(*builder),
    ensures
        built is Ok <==> globs_build(held_globs(*builder)),
        built matches Ok(set) ==> set_globs(set) == held_globs(*builder) && set_root(set)
            == builder_root(*builder),
{
    builder.build()
}

/// The text of an `ignore::Error`, as its `Display` gives it. Nothing is
/// claimed of the text.
#[verifier::external_body]
fn error_text(error: &ignore::Error) -> (text: String) {
    error.to_string()
}

/// Why a rule file was refused.
#[derive(Clone, Debug, PartialEq, Eq)]
pub struct RuleError {
    /// The line that was refused, counted from 1; `None` where the lines
    /// were taken one by one but could not be compiled together.
    pub line: Option<usize>,
    pub reason: String,
}

/// The index of the first line that is no rule, or the number of lines
/// where all are rules.
pub open spec fn first_refused(lines: Seq<Seq<char>>) -> int
    decreases lines.len(),
{
    if lines.len() == 0 {
        0
    } else if !line_is_rule(lines[0]) {
        0
    } else {
        1 + first_refused(lines.drop_first())
    }
}

/// The globs that some lines add, in the order of the lines; a line that
/// is no rule adds none.
pub open spec fn globs_of(lines: Seq<Seq<char>>) -> Seq<Seq<char>>
    decreases lines.len(),
{
    if lines.len() == 0 {
        Seq::empty()
    } else {
        globs_of(lines.drop_last()) + match added_by(lines.last()) {
            Some(globs) => globs,
            None => Seq::empty(),
        }
    }
}

/// Whether some lines make a set of rules: every line is a rule, and the
/// globs of the lines compile together.
pub open spec fn lines_compile(lines: Seq<Seq<char>>) -> bool {
    first_refused(lines) == lines.len() && globs_build(globs_of(lines))
}

/// The verdict that cleaning draws from a rule's answer: what the rules
/// exclude is accepted for removal, everything else is rejected and
/// descended into.
pub open spec fn verdict_of(answer: RuleMatch) -> Verdict {
    match answer {
        RuleMatch::Ignored => Verdict::Accept,
        RuleMatch::Unmatched => Verdict::Reject,
        RuleMatch::Whitelisted => Verdict::Reject,
    }
}

/// Draws the verdict from a rule's answer.
pub fn verdict_for(answer: RuleMatch) -> (verdict: Verdict)
    ensures
        verdict == verdict_of(answer),
{
    match answer {
        RuleMatch::Ignored => Verdict::Accept,
        RuleMatch::Unmatched => Verdict::Reject,
        RuleMatch::Whitelisted => Verdict::Reject,
    }
}

impl RuleSet {
    /// What the rules answer for a path.
    pub open spec fn answer(&self, path: Seq<char>, is_directory: bool) -> RuleMatch {
        rule_match(*self, path, is_directory)
    }

    /// The texts of the globs that the set holds, in order.
    pub closed spec fn globs(&self) -> Seq<Seq<char>> {
        set_globs(self.matcher)
    }

    /// The directory that the rules are matched against.
    pub closed spec fn root(&self) -> Seq<char> {
        set_root(self.matcher)
    }

    /// Compiles the lines of a rule file, to be matched relative to `root`.
    /// The lines are handed to the builder one by one, in order; the first
    /// line that it refuses ends the attempt, and is named in the error.
    /// Lines that were all taken fail only where their globs do not
    /// compile together. The set that is made holds the globs of exactly
    /// these lines, in their order.
    pub fn compile(root: &str, lines: &Vec<String>) -> (compiled: Result<RuleSet, RuleError>)
        ensures
            0 <= first_refused(texts(lines@)) <= lines.len(),
            compiled is Ok <==> lines_compile(texts(lines@)),
            compiled matches Ok(set) ==> set.globs() == globs_of(texts(lines@)) && (root@.len()
                == 0 || root@[0] != '.' ==> set.root() == root@),
            compiled matches Err(error) ==> error.line == if first_refused(texts(lines@))
                < lines.len() {
                Some((first_refused(texts(lines@)) + 1) as usize)
            } else {
                None
            },
    {
        let mut builder = builder_new(root);
        let mut index: usize = 0;
        let ghost all = texts(lines@);
        assert(all.skip(0) =~= all);
        assert(all.subrange(0, 0) =~= Seq::<Seq<char>>::empty());
        while index < lines.len()
            invariant
                index <= lines.len(),
                all == texts(lines@),
                has_first_settings(builder),
                root@.len() == 0 || root@[0] != '.' ==> builder_root(builder) == root@,
                first_refused(all) == index + first_refused(all.skip(index as int)),
                held_globs(builder) == globs_of(all.subrange(0, index as int)),
            decreases lines.len() - index,
        {
            assert(all.skip(index as int)[0] == lines@[index as int]@);
            match builder_add_line(&mut builder, lines[index].as_str()) {
                Ok(_) => {},
                Err(error) => {
                    return Err(RuleError { line: Some(index + 1), reason: error_text(&error) });
                },
            }
            assert(all.skip(index as int).drop_first() =~= all.skip(index + 1));
            assert(all.subrange(0, index + 1).drop_last() =~= all.subrange(0, index as int));
            assert(all.subrange(0, index + 1).last() == lines@[index as int]@);
            index = index + 1;
        }
        assert(all.skip(index as int).len() == 0);
        assert(all.subrange(0, index as int) =~= all);
        match builder_build(&builder) {
            Ok(matcher) => Ok(RuleSet { matcher }),
            Err(error) => Err(RuleError { line: None, reason: error_text(&error) }),
        }
    }

    /// Asks the rules about a path. A set that holds no glob speaks of no
    /// path.
    pub fn matches(&self, path: &str, is_directory: bool) -> (answer: RuleMatch)
        ensures
            answer == self.answer(path@, is_directory),
            self.globs().len() == 0 ==> answer == RuleMatch::Unmatched,
    {
        matched(self, path, is_directory)
    }

    /// The verdict of the rules on an entry. A set that holds no glob
    /// accepts nothing.
    pub fn judge(&self, entry: &Entry) -> (verdict: Verdict)
        ensures
            verdict == verdict_of(self.answer(entry.path@, entry.is_directory)),
            self.globs().len() == 0 ==> verdict == Verdict::Reject,
    {
        verdict_for(self.matches(entry.path.as_str(), entry.is_directory))
    }
}

} // verus!
