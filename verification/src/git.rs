//! The change set handed over by version control, and how it is read from
//! the name-and-status listing of a diff.
//!
//! Nothing here runs git. The detector says which command to run next and
//! takes what the command answered; whoever uses it runs the commands.

use crate::path;
use crate::text::{from_chars, slice, split, split_on, to_chars, views};
use vstd::prelude::*;
use vstd::string::StringExecFns;

verus! {

/// What went wrong when version control was asked.
#[derive(Debug)]
pub enum GitError {
    /// The directory is not inside a repository.
    NotARepo,
    /// The command ended with an error; its message is kept.
    CommandFailed(String),
    /// The reference that was to serve as base does not exist.
    InvalidRef(String),
}

impl GitError {
    /// The message of the error.
    pub open spec fn message(&self) -> Seq<char> {
        match self {
            GitError::NotARepo => "Not a git repository"@,
            GitError::CommandFailed(m) => "Git command failed: "@ + m@,
            GitError::InvalidRef(r) => "Invalid base reference: "@ + r@,
        }
    }

    /// The message of the error, as text.
    pub fn to_string(&self) -> (text: String)
        ensures
            text@ == self.message(),
    {
        match self {
            GitError::NotARepo => String::from_str("Not a git repository"),
            GitError::CommandFailed(m) => String::from_str("Git command failed: ").concat(
                m.as_str(),
            ),
            GitError::InvalidRef(r) => String::from_str("Invalid base reference: ").concat(
                r.as_str(),
            ),
        }
    }
}

/// Paths touched since the base revision, grouped by the kind of change.
#[derive(Debug)]
pub struct ChangeSet {
    pub modified: Vec<String>,
    pub added: Vec<String>,
    pub deleted: Vec<String>,
    /// Renames, as pairs (old path, new path).
    pub renamed: Vec<(String, String)>,
}

/// A [`ChangeSet`] as a mathematical value.
pub struct ChangeSetView {
    pub modified: Seq<Seq<char>>,
    pub added: Seq<Seq<char>>,
    pub deleted: Seq<Seq<char>>,
    pub renamed: Seq<(Seq<char>, Seq<char>)>,
}

impl View for ChangeSet {
    type V = ChangeSetView;

    open spec fn view(&self) -> ChangeSetView {
        ChangeSetView {
            modified: self.modified.deep_view(),
            added: self.added.deep_view(),
            deleted: self.deleted.deep_view(),
            renamed: self.renamed.deep_view(),
        }
    }
}

/// Both sides of every rename, old path first.
pub open spec fn both_sides(renamed: Seq<(Seq<char>, Seq<char>)>) -> Seq<Seq<char>>
    decreases renamed.len(),
{
    if renamed.len() == 0 {
        Seq::empty()
    } else {
        both_sides(renamed.drop_last()).push(renamed.last().0).push(renamed.last().1)
    }
}

impl ChangeSetView {
    /// A change set without changes.
    pub open spec fn empty() -> ChangeSetView {
        ChangeSetView {
            modified: Seq::empty(),
            added: Seq::empty(),
            deleted: Seq::empty(),
            renamed: Seq::empty(),
        }
    }

    /// Every path that still exists and was touched: the modified, then the
    /// added, then both sides of every rename. Deleted paths are left out.
    pub open spec fn all_changed(self) -> Seq<Seq<char>> {
        self.modified + self.added + both_sides(self.renamed)
    }
}

impl Default for ChangeSet {
    fn default() -> (changes: Self)
        ensures
            changes@ == ChangeSetView::empty(),
    {
        let changes = ChangeSet {
            modified: Vec::new(),
            added: Vec::new(),
            deleted: Vec::new(),
            renamed: Vec::new(),
        };
        assert(changes@.modified =~= Seq::empty());
        assert(changes@.added =~= Seq::empty());
        assert(changes@.deleted =~= Seq::empty());
        assert(changes@.renamed =~= Seq::empty());
        changes
    }
}

impl ChangeSet {
    /// Every path that still exists and was touched.
    pub fn all_changed(&self) -> (paths: Vec<String>)
        ensures
            paths.deep_view() == self@.all_changed(),
    {
        let mut paths: Vec<String> = Vec::new();
        let mut i: usize = 0;
        while i < self.modified.len()
            invariant
                i <= self.modified@.len(),
                paths.deep_view() == self@.modified.take(i as int),
            decreases self.modified@.len() - i,
        {
            let ghost before = paths.deep_view();
            paths.push(self.modified[i].clone());
            assert(paths.deep_view() =~= before.push(self.modified@[i as int]@));
            assert(self@.modified.take(i + 1) =~= before.push(self.modified@[i as int]@));
            i += 1;
        }
        assert(self@.modified.take(i as int) =~= self@.modified);
        let mut j: usize = 0;
        while j < self.added.len()
            invariant
                j <= self.added@.len(),
                paths.deep_view() == self@.modified + self@.added.take(j as int),
            decreases self.added@.len() - j,
        {
            let ghost before = paths.deep_view();
            paths.push(self.added[j].clone());
            assert(paths.deep_view() =~= before.push(self.added@[j as int]@));
            assert(self@.modified + self@.added.take(j + 1) =~= before.push(
                self.added@[j as int]@,
            ));
            j += 1;
        }
        assert(self@.added.take(j as int) =~= self@.added);
        let mut k: usize = 0;
        while k < self.renamed.len()
            invariant
                k <= self.renamed@.len(),
                paths.deep_view() == self@.modified + self@.added + both_sides(
                    self@.renamed.take(k as int),
                ),
            decreases self.renamed@.len() - k,
        {
            let ghost before = paths.deep_view();
            proof {
                assert(self@.renamed.take(k + 1).drop_last() =~= self@.renamed.take(k as int));
                assert(self@.renamed.take(k + 1).last() == self@.renamed[k as int]);
            }
            paths.push(self.renamed[k].0.clone());
            paths.push(self.renamed[k].1.clone());
            assert(paths.deep_view() =~= before.push(self@.renamed[k as int].0).push(
                self@.renamed[k as int].1,
            ));
            k += 1;
        }
        assert(self@.renamed.take(k as int) =~= self@.renamed);
        paths
    }

    /// True when no change of any kind is recorded.
    pub fn is_empty(&self) -> (empty: bool)
        ensures
            empty == (self@.modified.len() == 0 && self@.added.len() == 0 && self@.deleted.len()
                == 0 && self@.renamed.len() == 0),
    {
        self.modified.len() == 0 && self.added.len() == 0 && self.deleted.len() == 0
            && self.renamed.len() == 0
    }
}

/// A line of the listing without the carriage return that a line break may
/// leave at its end.
pub open spec fn without_carriage_return(line: Seq<char>, terminated: bool) -> Seq<char> {
    if terminated && line.len() > 0 && line.last() == '\r' {
        line.drop_last()
    } else {
        line
    }
}

/// What one line of the listing adds to `changes`. The line holds fields
/// between tabs: a status, then one path, or two for a rename. The first
/// letter of the status decides; a line that fits no kind adds nothing.
pub open spec fn with_line(changes: ChangeSetView, root: Seq<char>, line: Seq<char>) -> ChangeSetView {
    let fields = split_on(line, '\t');
    let status = fields[0];
    if status.len() == 0 || fields.len() < 2 {
        changes
    } else if status[0] == 'M' {
        ChangeSetView { modified: changes.modified.push(path::joined_path(root, fields[1])), ..changes }
    } else if status[0] == 'A' {
        ChangeSetView { added: changes.added.push(path::joined_path(root, fields[1])), ..changes }
    } else if status[0] == 'D' {
        ChangeSetView { deleted: changes.deleted.push(path::joined_path(root, fields[1])), ..changes }
    } else if status[0] == 'R' && fields.len() >= 3 {
        ChangeSetView {
            renamed: changes.renamed.push(
                (path::joined_path(root, fields[1]), path::joined_path(root, fields[2])),
            ),
            ..changes
        }
    } else {
        changes
    }
}

/// The change set that the first `count` lines of a listing describe. The
/// lines are the pieces between line breaks; all but the last one end in a
/// line break.
pub open spec fn changes_of_lines(root: Seq<char>, lines: Seq<Seq<char>>, count: int) -> ChangeSetView
    decreases count,
{
    if count <= 0 {
        ChangeSetView::empty()
    } else {
        with_line(
            changes_of_lines(root, lines, count - 1),
            root,
            without_carriage_return(lines[count - 1], count < lines.len()),
        )
    }
}

/// The change set that a listing describes.
pub open spec fn parsed_changes(root: Seq<char>, output: Seq<char>) -> ChangeSetView {
    let lines = split_on(output, '\n');
    changes_of_lines(root, lines, lines.len() as int)
}

/// How a git command ended.
#[derive(Debug)]
pub enum GitAnswer {
    /// The command could not be started; the text says why.
    NotStarted(String),
    /// The command ran and ended with an error; what it wrote about it.
    Failed(String),
    /// The command ran; what it wrote.
    Succeeded(String),
}

/// A question to git.
#[derive(Debug)]
pub enum GitRequest {
    /// Does `reference` exist? `range` is what to compare once it does.
    Verify { reference: String, range: String },
    /// What has changed in `range`, by name and status?
    Diff { range: String },
}

impl GitRequest {
    /// The arguments with which git answers the question.
    pub open spec fn command(&self) -> Seq<Seq<char>> {
        match self {
            GitRequest::Verify { reference, .. } => seq!["rev-parse"@, "--verify"@, reference@],
            GitRequest::Diff { range } => seq!["diff"@, "--name-status"@, range@],
        }
    }

    /// The question is whether `reference` exists, with `range` to compare.
    pub open spec fn verifies(&self, reference: Seq<char>, range: Seq<char>) -> bool {
        match self {
            GitRequest::Verify { reference: asked, range: compared } => asked@ == reference
                && compared@ == range,
            GitRequest::Diff { .. } => false,
        }
    }

    /// The arguments with which git answers the question.
    pub fn arguments(&self) -> (arguments: Vec<String>)
        ensures
            arguments.deep_view() == self.command(),
    {
        let mut arguments: Vec<String> = Vec::new();
        match self {
            GitRequest::Verify { reference, .. } => {
                arguments.push(String::from_str("rev-parse"));
                arguments.push(String::from_str("--verify"));
                arguments.push(reference.clone());
                assert(arguments.deep_view() =~= self.command());
            },
            GitRequest::Diff { range } => {
                arguments.push(String::from_str("diff"));
                arguments.push(String::from_str("--name-status"));
                arguments.push(range.clone());
                assert(arguments.deep_view() =~= self.command());
            },
        }
        arguments
    }
}

/// Where a detection stands: at a question to git, or at its outcome.
#[derive(Debug)]
pub enum Detection {
    Ask(GitRequest),
    Done(Result<ChangeSet, GitError>),
}

/// Reads change sets for one repository.
pub struct GitChangeDetector {
    repo_root: String,
}

impl GitChangeDetector {
    /// The root of the repository.
    pub closed spec fn root(&self) -> Seq<char> {
        self.repo_root@
    }

    /// The arguments with which git says whether a directory lies in a
    /// repository.
    pub fn repository_probe() -> (arguments: Vec<String>)
        ensures
            arguments.deep_view() == seq!["rev-parse"@, "--git-dir"@],
    {
        let mut arguments: Vec<String> = Vec::new();
        arguments.push(String::from_str("rev-parse"));
        arguments.push(String::from_str("--git-dir"));
        assert(arguments.deep_view() =~= seq!["rev-parse"@, "--git-dir"@]);
        arguments
    }

    /// A detector for the repository at `repo_root`, given what git
    /// answered to the [`GitChangeDetector::repository_probe`] there: the
    /// directory is in a repository where the command succeeded.
    pub fn new(repo_root: String, probe: &GitAnswer) -> (made: Result<Self, GitError>)
        ensures
            match *probe {
                GitAnswer::Succeeded(_) => made matches Ok(d) && d.root() == repo_root@,
                GitAnswer::Failed(_) => made matches Err(e) && e is NotARepo,
                GitAnswer::NotStarted(why) => made matches Err(GitError::CommandFailed(m)) && m@
                    == why@,
            },
    {
        match probe {
            GitAnswer::Succeeded(_) => Ok(GitChangeDetector { repo_root }),
            GitAnswer::Failed(_) => Err(GitError::NotARepo),
            GitAnswer::NotStarted(why) => Err(GitError::CommandFailed(why.clone())),
        }
    }

    /// The question whether the branch `main` exists.
    pub fn default_base_probe(&self) -> (asked: GitRequest)
        ensures
            asked.command() == seq!["rev-parse"@, "--verify"@, "main"@],
    {
        GitRequest::Verify { reference: String::from_str("main"), range: String::from_str("main") }
    }

    /// The base to compare with where none is given: `main` where git
    /// found that branch, else `master`.
    pub fn get_default_base(&self, probe: &GitAnswer) -> (base: String)
        ensures
            base@ == if *probe is Succeeded {
                "main"@
            } else {
                "master"@
            },
    {
        match probe {
            GitAnswer::Succeeded(_) => String::from_str("main"),
            _ => String::from_str("master"),
        }
    }

    /// Begins to detect what has changed against `base_ref`.
    pub fn detect_changes(&self, base_ref: &str) -> (asked: GitRequest)
        ensures
            asked.verifies(base_ref@, base_ref@),
    {
        GitRequest::Verify {
            reference: String::from_str(base_ref),
            range: String::from_str(base_ref),
        }
    }

    /// Begins to detect what has changed from `since_ref` to the head.
    pub fn detect_changes_since(&self, since_ref: &str) -> (asked: GitRequest)
        ensures
            asked.verifies(since_ref@, since_ref@ + "..HEAD"@),
    {
        GitRequest::Verify {
            reference: String::from_str(since_ref),
            range: String::from_str(since_ref).concat("..HEAD"),
        }
    }

    /// `next` is where the detection stands once git has answered `asked`
    /// with `answer`.
    pub open spec fn follows(&self, asked: GitRequest, answer: GitAnswer, next: Detection) -> bool {
        match (asked, answer) {
            (_, GitAnswer::NotStarted(why)) => next matches Detection::Done(
                Err(GitError::CommandFailed(m)),
            ) && m@ == why@,
            (GitRequest::Verify { reference, .. }, GitAnswer::Failed(_)) => next matches Detection::Done(
                Err(GitError::InvalidRef(r)),
            ) && r@ == reference@,
            (GitRequest::Verify { range, .. }, GitAnswer::Succeeded(_)) => next matches Detection::Ask(
                GitRequest::Diff { range: compared },
            ) && compared@ == range@,
            (GitRequest::Diff { .. }, GitAnswer::Failed(wrote)) => next matches Detection::Done(
                Err(GitError::CommandFailed(m)),
            ) && m@ == wrote@,
            (GitRequest::Diff { .. }, GitAnswer::Succeeded(listing)) => next matches Detection::Done(
                Ok(changes),
            ) && changes@ == parsed_changes(self.root(), listing@),
        }
    }

    /// Where the detection stands once git has answered `asked`. A
    /// reference that git does not know is an invalid reference; a diff
    /// that fails is a failed command, with what git wrote about it; a diff
    /// that succeeds gives the change set that its listing describes. A
    /// command that could not be started is a failed command.
    pub fn advance(&self, asked: GitRequest, answer: GitAnswer) -> (next: Detection)
        ensures
            self.follows(asked, answer, next),
    {
        match answer {
            GitAnswer::NotStarted(why) => Detection::Done(Err(GitError::CommandFailed(why))),
            GitAnswer::Failed(wrote) => match asked {
                GitRequest::Verify { reference, .. } => Detection::Done(
                    Err(GitError::InvalidRef(reference)),
                ),
                GitRequest::Diff { .. } => Detection::Done(Err(GitError::CommandFailed(wrote))),
            },
            GitAnswer::Succeeded(listing) => match asked {
                GitRequest::Verify { range, .. } => Detection::Ask(GitRequest::Diff { range }),
                GitRequest::Diff { .. } => Detection::Done(self.parse_diff_output(listing.as_str())),
            },
        }
    }

    /// Reads the name-and-status listing of a diff. Every path is taken
    /// relative to the root of the repository. Lines that cannot be read are
    /// passed over, so the result is always `Ok`.
    pub fn parse_diff_output(&self, output: &str) -> (parsed: Result<ChangeSet, GitError>)
        ensures
            parsed matches Ok(changes) && changes@ == parsed_changes(self.root(), output@),
    {
        let root = to_chars(self.repo_root.as_str());
        let text = to_chars(output);
        let lines = split(&text, '\n');
        let ghost all = views(lines@);
        let mut changes = ChangeSet::default();
        let mut i: usize = 0;
        while i < lines.len()
            invariant
                i <= lines@.len(),
                all == views(lines@),
                root@ == self.root(),
                changes@ == changes_of_lines(root@, all, i as int),
            decreases lines@.len() - i,
        {
            let line = &lines[i];
            assert(all[i as int] == line@);
            let end: usize = if i + 1 < lines.len() && line.len() > 0 && line[line.len() - 1]
                == '\r' {
                line.len() - 1
            } else {
                line.len()
            };
            let trimmed = slice(line, 0, end);
            proof {
                assert(trimmed@ =~= without_carriage_return(line@, i + 1 < all.len()));
            }
            let fields = split(&trimmed, '\t');
            let ghost before = changes@;
            let ghost parts = views(fields@);
            proof {
                crate::text::lemma_split_nonempty(trimmed@, '\t');
            }
            assert(parts[0] == fields@[0]@);
            if fields[0].len() > 0 && fields.len() >= 2 {
                let status = fields[0][0];
                assert(parts[1] == fields@[1]@);
                let first = from_chars(&path::join_chars(&root, &fields[1]));
                if status == 'M' {
                    changes.modified.push(first);
                    assert(changes@.modified =~= before.modified.push(first@));
                } else if status == 'A' {
                    changes.added.push(first);
                    assert(changes@.added =~= before.added.push(first@));
                } else if status == 'D' {
                    changes.deleted.push(first);
                    assert(changes@.deleted =~= before.deleted.push(first@));
                } else if status == 'R' && fields.len() >= 3 {
                    assert(parts[2] == fields@[2]@);
                    let second = from_chars(&path::join_chars(&root, &fields[2]));
                    changes.renamed.push((first, second));
                    assert(changes@.renamed =~= before.renamed.push((first@, second@)));
                }
            }
            assert(changes@ == with_line(before, root@, trimmed@));
            i += 1;
        }
        Ok(changes)
    }
}

} // verus!
