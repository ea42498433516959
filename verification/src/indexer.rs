//! Which files of a directory are indexed.

use vstd::prelude::*;
use crate::pattern::{contains, matches_at, occurs_in, pieces, split, starts_with};
use crate::text::{chars_of, lowercase, lowercase_of, same, slice_of, string_of, trim, trimmed, views};

verus! {

/// Files of more than this many bytes are not indexed.
pub const MAX_FILE_BYTES: u64 = 5 * 1024 * 1024;

/// The file name patterns by which files are chosen.
#[derive(Debug, Clone)]
pub struct Indexer {
    pub patterns: Vec<String>,
}

/// `text` ends with `suffix`.
pub open spec fn ends_with(text: Seq<char>, suffix: Seq<char>) -> bool {
    suffix.len() <= text.len() && text.skip(text.len() - suffix.len()) == suffix
}

/// A file name matches a pattern: `*` matches every name; a pattern that
/// starts with `*.` matches the names that end, letter case aside, with what
/// follows the `*`; any other pattern matches the names in which it stands.
pub open spec fn pattern_matches(pattern: Seq<char>, file_name: Seq<char>) -> bool {
    if pattern == "*"@ {
        true
    } else if "*."@.is_prefix_of(pattern) {
        ends_with(lowercase_of(file_name), lowercase_of(pattern.skip(1)))
    } else {
        occurs_in(file_name, pattern)
    }
}

/// The texts of the patterns.
pub open spec fn pattern_texts(patterns: Seq<String>) -> Seq<Seq<char>> {
    Seq::new(patterns.len(), |i: int| patterns[i]@)
}

/// A file name is chosen where there are no patterns, or one of them matches.
pub open spec fn chosen(patterns: Seq<Seq<char>>, file_name: Seq<char>) -> bool {
    patterns.len() == 0 || exists|i: int|
        0 <= i < patterns.len() && pattern_matches(#[trigger] patterns[i], file_name)
}

/// The patterns among the parts of a list: each part without the whitespace
/// around it, the empty ones left out.
pub open spec fn kept_patterns(parts: Seq<Seq<char>>) -> Seq<Seq<char>>
    decreases parts.len(),
{
    if parts.len() == 0 {
        seq![]
    } else {
        let rest = kept_patterns(parts.drop_last());
        let pattern = trimmed(parts.last());
        if pattern.len() > 0 {
            rest.push(pattern)
        } else {
            rest
        }
    }
}

/// The patterns that a list names, such as `*.txt, *.md`: the parts between
/// its commas.
pub open spec fn listed_patterns(list: Seq<char>) -> Seq<Seq<char>> {
    kept_patterns(pieces(list, ","@))
}

/// Whether a file name matches a pattern.
pub fn matches_pattern(pattern: &str, file_name: &str) -> (r: bool)
    ensures
        r == pattern_matches(pattern@, file_name@),
{
    let p = chars_of(pattern);
    let name = chars_of(file_name);
    let star = chars_of("*");
    let star_dot = chars_of("*.");
    if same(&p, &star) {
        return true;
    }
    if starts_with(&p, &star_dot) {
        assert(p.len() >= 1) by {
            reveal_strlit("*.");
        }
        let tail = slice_of(&p, 1, p.len());
        assert(tail@ == p@.skip(1));
        let suffix = lowercase(&tail);
        let low = lowercase(&name);
        if suffix.len() > low.len() {
            return false;
        }
        let at = low.len() - suffix.len();
        proof {
            if suffix.len() <= low.len() {
                assert(low@.skip(at as int) == low@.subrange(at as int, at + suffix.len()));
            }
        }
        return matches_at(&low, &suffix, at);
    }
    contains(&name, &p)
}

impl Indexer {
    /// An indexer for files that match one of `patterns`.
    pub fn new(patterns: Vec<String>) -> (r: Self)
        ensures
            r.patterns == patterns,
    {
        Indexer { patterns }
    }

    /// An indexer for the patterns that a list names.
    pub fn from_list(list: &str) -> (r: Self)
        ensures
            pattern_texts(r.patterns@) == listed_patterns(list@),
    {
        let parts = split(&chars_of(list), &chars_of(","));
        let ghost ps = views(parts@);
        let mut patterns: Vec<String> = Vec::new();
        let mut i: usize = 0;
        while i < parts.len()
            invariant
                i <= parts.len(),
                ps == views(parts@),
                pattern_texts(patterns@) == kept_patterns(ps.take(i as int)),
            decreases parts.len() - i,
        {
            proof {
                assert(ps.take(i + 1).drop_last() == ps.take(i as int));
                assert(ps.take(i + 1).last() == parts[i as int]@);
            }
            let pattern = trim(&parts[i]);
            if pattern.len() > 0 {
                let ghost before = patterns@;
                let text = string_of(&pattern);
                patterns.push(text);
                assert(pattern_texts(patterns@) =~= pattern_texts(before).push(pattern@));
            }
            i += 1;
        }
        assert(ps.take(parts.len() as int) == ps);
        Indexer { patterns }
    }

    /// Whether a file of this name is chosen.
    pub fn matches_patterns(&self, file_name: &str) -> (r: bool)
        ensures
            r == chosen(pattern_texts(self.patterns@), file_name@),
    {
        if self.patterns.len() == 0 {
            return true;
        }
        let ghost ps = pattern_texts(self.patterns@);
        let mut i: usize = 0;
        while i < self.patterns.len()
            invariant
                i <= self.patterns.len(),
                ps == pattern_texts(self.patterns@),
                forall|j: int| 0 <= j < i ==> !pattern_matches(#[trigger] ps[j], file_name@),
            decreases self.patterns.len() - i,
        {
            assert(ps[i as int] == self.patterns[i as int]@);
            if matches_pattern(self.patterns[i].as_str(), file_name) {
                return true;
            }
            i += 1;
        }
        false
    }

    /// Whether a file of this size is small enough to be indexed.
    pub fn accepts_size(&self, size: u64) -> (r: bool)
        ensures
            r == (size <= MAX_FILE_BYTES),
    {
        size <= MAX_FILE_BYTES
    }

    /// Whether a file of this name and size is indexed.
    pub fn selects(&self, file_name: &str, size: u64) -> (r: bool)
        ensures
            r == (chosen(pattern_texts(self.patterns@), file_name@) && size <= MAX_FILE_BYTES),
    {
        self.matches_patterns(file_name) && self.accepts_size(size)
    }
}

/// What became of one file.
#[derive(Debug, Clone, Copy, PartialEq, Eq, Structural)]
pub enum FileOutcome {
    /// Its chunks were added to the index.
    Added,
    /// It was indexed before, with the content that it has now.
    Skipped,
    /// It could not be read or stored.
    Failed,
    /// It took longer than a file may take.
    TimedOut,
}

/// The count of a batch of files: how many were indexed, skipped and failed,
/// of how many in all.
#[derive(Debug, Clone, Copy, PartialEq, Eq, Structural)]
pub struct IndexingSummary {
    pub indexed: usize,
    pub skipped: usize,
    pub failed: usize,
    pub total: usize,
}

impl IndexingSummary {
    /// How many files have been counted.
    pub open spec fn processed(&self) -> int {
        self.indexed + self.skipped + self.failed
    }

    /// No more files are counted than the batch has.
    pub open spec fn wf(&self) -> bool {
        self.processed() <= self.total
    }

    /// The count with one more file of this outcome. A file that timed out
    /// counts as failed.
    pub open spec fn with_outcome(self, outcome: FileOutcome) -> IndexingSummary {
        match outcome {
            FileOutcome::Added => IndexingSummary { indexed: (self.indexed + 1) as usize, ..self },
            FileOutcome::Skipped => IndexingSummary { skipped: (self.skipped + 1) as usize, ..self },
            FileOutcome::Failed | FileOutcome::TimedOut => IndexingSummary {
                failed: (self.failed + 1) as usize,
                ..self
            },
        }
    }

    /// The count of a batch of `total` files before the first.
    pub fn new(total: usize) -> (r: Self)
        ensures
            r == (IndexingSummary { indexed: 0, skipped: 0, failed: 0, total }),
            r.wf(),
    {
        IndexingSummary { indexed: 0, skipped: 0, failed: 0, total }
    }

    /// Whether files of the batch are left to count.
    pub fn has_more(&self) -> (r: bool)
        requires
            self.wf(),
        ensures
            r == (self.processed() < self.total),
    {
        self.indexed + self.skipped < self.total - self.failed
    }

    /// Counts one file. Whatever its outcome, the batch goes on.
    pub fn record(&mut self, outcome: FileOutcome)
        requires
            old(self).wf(),
            old(self).processed() < old(self).total,
        ensures
            *final(self) == old(self).with_outcome(outcome),
            final(self).wf(),
            final(self).processed() == old(self).processed() + 1,
            final(self).total == old(self).total,
    {
        match outcome {
            FileOutcome::Added => {
                self.indexed += 1;
            },
            FileOutcome::Skipped => {
                self.skipped += 1;
            },
            FileOutcome::Failed | FileOutcome::TimedOut => {
                self.failed += 1;
            },
        }
    }

    /// Whether no file failed.
    pub fn all_succeeded(&self) -> (r: bool)
        ensures
            r == (self.failed == 0),
    {
        self.failed == 0
    }
}

} // verus!
