//! The state of a Git working tree, read from what `git status --porcelain=v1`
//! and `git rev-parse` print.
use crate::deploy::texts;
use crate::text::{push_char, trim_spec, trim_text};
use vstd::prelude::*;
use vstd::std_specs::iter::IteratorSpec;
use vstd::string::StrSliceExecFns;
use vstd::string::StringExecFns;
use vstd::utf8::encode_utf8;

verus! {

/// The most changed paths that a status lists.
pub const GIT_STATUS_MAX_FILES: usize = 10_000;

/// One changed path of a working tree, with its index and work-tree status
/// letters.
#[derive(Debug, Clone, PartialEq, Eq)]
pub struct GitFileStatus {
    pub path: String,
    pub index_status: String,
    pub worktree_status: String,
}

/// A working tree: its root, its branch, the commit it stands on and its
/// changed paths.
#[derive(Debug, Clone, PartialEq, Eq)]
pub struct GitWorkspaceStatus {
    pub root: String,
    pub branch: String,
    pub head: Option<String>,
    pub clean: bool,
    pub files: Vec<GitFileStatus>,
}

/// A line without the carriage return that ended it.
pub open spec fn without_cr(line: Seq<char>) -> Seq<char> {
    if line.len() > 0 && line.last() == '\r' {
        line.drop_last()
    } else {
        line
    }
}

/// The lines that a text has completed so far, and the line it is in.
pub open spec fn line_scan(text: Seq<char>) -> (Seq<Seq<char>>, Seq<char>)
    decreases text.len(),
{
    if text.len() == 0 {
        (Seq::empty(), Seq::empty())
    } else {
        let (done, current) = line_scan(text.drop_last());
        if text.last() == '\n' {
            (done.push(without_cr(current)), Seq::empty())
        } else {
            (done, current.push(text.last()))
        }
    }
}

/// The lines of a text as `str::lines` yields them: split at each line feed,
/// a carriage return just before it dropped, and no empty line after a final
/// line feed.
pub open spec fn text_lines(text: Seq<char>) -> Seq<Seq<char>> {
    let (done, current) = line_scan(text);
    if current.len() > 0 {
        done.push(current)
    } else {
        done
    }
}

/// The lines of a status that name a file: those of at least four bytes, the
/// first `GIT_STATUS_MAX_FILES` of them.
pub open spec fn status_entries(lines: Seq<Seq<char>>) -> Seq<Seq<char>>
    decreases lines.len(),
{
    if lines.len() == 0 {
        Seq::empty()
    } else {
        let before = status_entries(lines.drop_last());
        if encode_utf8(lines.last()).len() < 4 || before.len() >= GIT_STATUS_MAX_FILES {
            before
        } else {
            before.push(lines.last())
        }
    }
}

/// The line opens with its two status letters and their separator, one byte
/// each.
pub open spec fn ascii_status_prefix(line: Seq<char>) -> bool {
    &&& line.len() >= 3
    &&& (line[0] as u32) < 128
    &&& (line[1] as u32) < 128
    &&& (line[2] as u32) < 128
}

/// Every line of the status that names a file can be cut after its status
/// letters and separator.
pub open spec fn porcelain_readable(porcelain: Seq<char>) -> bool {
    let entries = status_entries(text_lines(porcelain));
    forall|i: int| 0 <= i < entries.len() ==> ascii_status_prefix(#[trigger] entries[i])
}

/// The file status that a status line describes.
pub open spec fn file_status_matches(status: GitFileStatus, line: Seq<char>) -> bool {
    &&& status.index_status@ == seq![line[0]]
    &&& status.worktree_status@ == seq![line[1]]
    &&& status.path@ == line.skip(3)
}

proof fn lemma_status_entries_bounded(lines: Seq<Seq<char>>)
    ensures
        status_entries(lines).len() <= GIT_STATUS_MAX_FILES,
    decreases lines.len(),
{
    if lines.len() > 0 {
        lemma_status_entries_bounded(lines.drop_last());
    }
}

/// The lines of a text, as `str::lines` yields them.
pub fn text_lines_of(text: &str) -> (lines: Vec<String>)
    ensures
        texts(lines@) == text_lines(text@),
{
    broadcast use vstd::string::axiom_spec_iter, vstd::string::next_postcondition;

    let total = text.unicode_len();
    let mut chars = text.chars();
    let mut lines: Vec<String> = Vec::new();
    let mut current = String::new();
    let mut count: usize = 0;
    let mut last_cr = false;
    let ghost mut k: int = 0;
    loop
        invariant
            0 <= k <= text@.len(),
            total == text@.len(),
            chars.remaining() == text@.skip(k),
            chars.obeys_prophetic_iter_laws(),
            line_scan(text@.take(k)).0 == texts(lines@),
            line_scan(text@.take(k)).1 == current@,
            count == current@.len(),
            count <= k,
            last_cr == (current@.len() > 0 && current@.last() == '\r'),
        ensures
            k == text@.len(),
            line_scan(text@).0 == texts(lines@),
            line_scan(text@).1 == current@,
            count == current@.len(),
        decreases text@.len() - k,
    {
        let next = chars.next();
        match next {
            Some(c) => {
                proof {
                    assert(text@.skip(k)[0] == text@[k]);
                    assert(text@.skip(k).drop_first() =~= text@.skip(k + 1));
                    assert(text@.take(k + 1).drop_last() =~= text@.take(k));
                    assert(text@.take(k + 1).last() == c);
                }
                if c == '\n' {
                    let line = if last_cr {
                        let cut = current.as_str().substring_char(0, count - 1);
                        proof {
                            assert(cut@ =~= current@.drop_last());
                        }
                        String::from_str(cut)
                    } else {
                        current
                    };
                    lines.push(line);
                    proof {
                        assert(texts(lines@) =~= line_scan(text@.take(k + 1)).0);
                    }
                    current = String::new();
                    count = 0;
                    last_cr = false;
                } else {
                    push_char(&mut current, c);
                    count = count + 1;
                    last_cr = c == '\r';
                }
                proof {
                    k = k + 1;
                }
            },
            None => {
                proof {
                    assert(text@.skip(k).len() == 0);
                    assert(text@.take(k) =~= text@);
                }
                break;
            },
        }
    }
    if count > 0 {
        lines.push(current);
        proof {
            assert(texts(lines@) =~= text_lines(text@));
        }
    }
    lines
}

/// The lines of a status that name a file, in order.
pub fn git_status_entries(porcelain: &str) -> (entries: Vec<String>)
    ensures
        texts(entries@) == status_entries(text_lines(porcelain@)),
{
    let lines = text_lines_of(porcelain);
    let ghost all = texts(lines@);
    let mut entries: Vec<String> = Vec::new();
    let mut i: usize = 0;
    while i < lines.len()
        invariant
            i <= lines@.len(),
            all == texts(lines@),
            all == text_lines(porcelain@),
            texts(entries@) == status_entries(all.take(i as int)),
        decreases lines@.len() - i,
    {
        proof {
            assert(all.take(i + 1).drop_last() =~= all.take(i as int));
            assert(all.take(i + 1).last() == lines@[i as int]@);
        }
        let byte_len = lines[i].as_str().as_bytes().len();
        if byte_len >= 4 && entries.len() < GIT_STATUS_MAX_FILES {
            entries.push(lines[i].clone());
            proof {
                assert(texts(entries@) =~= status_entries(all.take(i + 1)));
            }
        }
        i = i + 1;
    }
    proof {
        assert(all.take(lines@.len() as int) =~= all);
    }
    entries
}

/// Whether every line of the status that names a file opens with single-byte
/// status letters and separator, so that `git_workspace_status` can read it.
pub fn porcelain_is_readable(porcelain: &str) -> (readable: bool)
    ensures
        readable == porcelain_readable(porcelain@),
{
    let entries = git_status_entries(porcelain);
    let ghost all = status_entries(text_lines(porcelain@));
    let mut i: usize = 0;
    while i < entries.len()
        invariant
            i <= entries@.len(),
            texts(entries@) == all,
            all == status_entries(text_lines(porcelain@)),
            forall|j: int| 0 <= j < i ==> ascii_status_prefix(#[trigger] all[j]),
        decreases entries@.len() - i,
    {
        let line = entries[i].as_str();
        assert(line@ == all[i as int]);
        if line.unicode_len() < 3 {
            return false;
        }
        let first = line.get_char(0);
        let second = line.get_char(1);
        let third = line.get_char(2);
        if (first as u32) >= 128 || (second as u32) >= 128 || (third as u32) >= 128 {
            return false;
        }
        i = i + 1;
    }
    true
}

/// The file status that a status line describes.
fn file_status_of(line: &str) -> (status: GitFileStatus)
    requires
        ascii_status_prefix(line@),
    ensures
        file_status_matches(status, line@),
{
    let length = line.unicode_len();
    let index_status = String::from_str(line.substring_char(0, 1));
    let worktree_status = String::from_str(line.substring_char(1, 2));
    let path = String::from_str(line.substring_char(3, length));
    proof {
        assert(index_status@ =~= seq![line@[0]]);
        assert(worktree_status@ =~= seq![line@[1]]);
        assert(path@ =~= line@.skip(3));
    }
    GitFileStatus { path, index_status, worktree_status }
}

/// The working tree that git describes: its root and branch as printed, less
/// surrounding white space; the commit it stands on, where git named one; and
/// one file status for each status line of at least four bytes, the first
/// `GIT_STATUS_MAX_FILES` of them. The tree is clean when no line names a
/// file.
pub fn git_workspace_status(
    repository_root: &str,
    branch: &str,
    head: Option<&str>,
    porcelain: &str,
) -> (status: GitWorkspaceStatus)
    requires
        porcelain_readable(porcelain@),
    ensures
        status.root@ == trim_spec(repository_root@),
        status.branch@ == trim_spec(branch@),
        match head {
            Some(printed) => if trim_spec(printed@).len() > 0 {
                status.head is Some && status.head->0@ == trim_spec(printed@)
            } else {
                status.head is None
            },
            None => status.head is None,
        },
        status.files@.len() == status_entries(text_lines(porcelain@)).len(),
        forall|i: int|
            0 <= i < status.files@.len() ==> file_status_matches(
                #[trigger] status.files@[i],
                status_entries(text_lines(porcelain@))[i],
            ),
        status.files@.len() <= GIT_STATUS_MAX_FILES,
        status.clean == (status.files@.len() == 0),
{
    let entries = git_status_entries(porcelain);
    let ghost all = status_entries(text_lines(porcelain@));
    proof {
        lemma_status_entries_bounded(text_lines(porcelain@));
    }
    let mut files: Vec<GitFileStatus> = Vec::new();
    let mut i: usize = 0;
    while i < entries.len()
        invariant
            i <= entries@.len(),
            texts(entries@) == all,
            all == status_entries(text_lines(porcelain@)),
            porcelain_readable(porcelain@),
            files@.len() == i,
            forall|j: int| 0 <= j < i ==> file_status_matches(#[trigger] files@[j], all[j]),
        decreases entries@.len() - i,
    {
        let line = entries[i].as_str();
        assert(line@ == all[i as int]);
        let file = file_status_of(line);
        files.push(file);
        i = i + 1;
    }
    let root = String::from_str(trim_text(repository_root));
    let branch_name = String::from_str(trim_text(branch));
    let head_commit = match head {
        Some(printed) => {
            let trimmed = trim_text(printed);
            if trimmed.unicode_len() > 0 {
                Some(String::from_str(trimmed))
            } else {
                None
            }
        },
        None => None,
    };
    let clean = files.len() == 0;
    GitWorkspaceStatus { root, branch: branch_name, head: head_commit, clean, files }
}

} // verus!
