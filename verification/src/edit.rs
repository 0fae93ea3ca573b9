//! The edit session of the interactive search: the lines of one file, a
//! cursor, line edits and literal replacements, with the decisions taken
//! on each key or answer. Reading keys, drawing and saving are the
//! caller's part.
use vstd::prelude::*;

use crate::interactive::{KeyCode, KeyEvent};
use crate::text::{
    chars_of, concat_text, contains_chars, contains_seq, lines_of, replace_all_literal, replace_text,
    split_lines, trim_chars, trim_seq, views,
};
use crate::undo::{join_lines, join_with_newlines, UndoFileReference, UndoInfo};

verus! {

/// What the session is doing.
#[derive(Debug, Clone, Copy, PartialEq, Eq, Structural)]
pub enum EditMode {
    View,
    LineEdit,
    Replace,
    SaveConfirm,
}

/// What a key press in view mode asks for.
#[derive(Debug, Clone, Copy, PartialEq, Eq, Structural)]
pub enum EditAction {
    MovePrev,
    MoveNext,
    StartEdit,
    StartReplace,
    Save,
    Cancel,
    Unknown,
}

/// What the caller does after a view action: go on, save the file (and
/// then finish with `true`), or finish with the given "modified" answer.
#[derive(Debug, Clone, Copy, PartialEq, Eq, Structural)]
pub enum EditStep {
    Continue,
    SaveAndFinish,
    Finish(bool),
}

/// The answer to "Replace? (y/N/a=all)".
#[derive(Debug, Clone, Copy, PartialEq, Eq, Structural)]
pub enum ReplaceAnswer {
    Yes,
    No,
    All,
}

/// The action of a key press in view mode.
pub open spec fn view_action_spec(e: KeyEvent) -> EditAction {
    match e.code {
        KeyCode::Up => EditAction::MovePrev,
        KeyCode::Down => EditAction::MoveNext,
        KeyCode::Enter => EditAction::StartEdit,
        KeyCode::Char(c) => if c == 'r' || c == 'R' {
            EditAction::StartReplace
        } else if c == 's' || c == 'S' {
            EditAction::Save
        } else if c == 'c' || c == 'C' {
            EditAction::Cancel
        } else {
            EditAction::Unknown
        },
        KeyCode::Esc => EditAction::Cancel,
        _ => EditAction::Unknown,
    }
}

/// Maps a key press in view mode to its action: arrows move, Enter edits
/// the line, `r` replaces, `s` saves, `c` (with or without Control) and Esc
/// cancel.
pub fn view_action(e: &KeyEvent) -> (a: EditAction)
    ensures
        a == view_action_spec(*e),
{
    match e.code {
        KeyCode::Up => EditAction::MovePrev,
        KeyCode::Down => EditAction::MoveNext,
        KeyCode::Enter => EditAction::StartEdit,
        KeyCode::Char(c) => {
            if c == 'r' || c == 'R' {
                EditAction::StartReplace
            } else if c == 's' || c == 'S' {
                EditAction::Save
            } else if c == 'c' || c == 'C' {
                EditAction::Cancel
            } else {
                EditAction::Unknown
            }
        },
        KeyCode::Esc => EditAction::Cancel,
        _ => EditAction::Unknown,
    }
}

/// Whether an answer, once trimmed, begins with `y` or `Y`.
pub open spec fn is_yes(s: Seq<char>) -> bool {
    let t = trim_seq(s);
    t.len() > 0 && (t[0] == 'y' || t[0] == 'Y')
}

/// Whether an answer, once trimmed, is `a` or `A`.
pub open spec fn is_all(s: Seq<char>) -> bool {
    let t = trim_seq(s);
    t.len() == 1 && (t[0] == 'a' || t[0] == 'A')
}

/// Reads a yes/no answer: yes when, trimmed and lowercased, it begins with
/// `y`.
pub fn parse_yes(s: &str) -> (b: bool)
    ensures
        b == is_yes(s@),
{
    let cs = chars_of(s);
    let t = trim_chars(&cs);
    t.len() > 0 && (t[0] == 'y' || t[0] == 'Y')
}

/// Reads the answer to one proposed replacement: `a` means all from here
/// on, an answer beginning with `y` means yes, anything else no.
pub fn parse_answer(s: &str) -> (a: ReplaceAnswer)
    ensures
        a == (if is_all(s@) {
            ReplaceAnswer::All
        } else if is_yes(s@) {
            ReplaceAnswer::Yes
        } else {
            ReplaceAnswer::No
        }),
{
    let cs = chars_of(s);
    let t = trim_chars(&cs);
    if t.len() == 1 && (t[0] == 'a' || t[0] == 'A') {
        ReplaceAnswer::All
    } else if t.len() > 0 && (t[0] == 'y' || t[0] == 'Y') {
        ReplaceAnswer::Yes
    } else {
        ReplaceAnswer::No
    }
}

/// Replacing in the lines from `i` on: a line that contains `p` is
/// rewritten when no confirmation is asked, or when the next answer (No
/// once they run out) is yes or all; all stops the questions. Gives the
/// lines from `i` on and whether any changed.
pub open spec fn replace_from(
    lines: Seq<Seq<char>>,
    p: Seq<char>,
    r: Seq<char>,
    i: int,
    confirm: bool,
    k: int,
    answers: Seq<ReplaceAnswer>,
) -> (Seq<Seq<char>>, bool)
    decreases lines.len() - i,
{
    if i < 0 || i >= lines.len() {
        (seq![], false)
    } else if !contains_seq(lines[i], p) {
        let rest = replace_from(lines, p, r, i + 1, confirm, k, answers);
        (seq![lines[i]].add(rest.0), rest.1)
    } else if !confirm {
        let rest = replace_from(lines, p, r, i + 1, confirm, k, answers);
        (seq![replace_all_literal(lines[i], p, r)].add(rest.0), true)
    } else {
        let a = if 0 <= k < answers.len() {
            answers[k]
        } else {
            ReplaceAnswer::No
        };
        let rest = replace_from(lines, p, r, i + 1, a != ReplaceAnswer::All, k + 1, answers);
        if a == ReplaceAnswer::No {
            (seq![lines[i]].add(rest.0), rest.1)
        } else {
            (seq![replace_all_literal(lines[i], p, r)].add(rest.0), true)
        }
    }
}

/// The lines of a file being edited.
#[derive(Debug)]
pub struct EditSession {
    file_path: String,
    lines: Vec<String>,
    current_line: usize,
    mode: EditMode,
    modified: bool,
    match_line: usize,
    match_start: usize,
    match_end: usize,
    undo_info: Option<UndoInfo>,
}

/// The first and one-past-last line shown: five lines either side of the
/// cursor, clipped to the file.
pub open spec fn window_spec(current: int, len: int) -> (int, int) {
    (if current >= 5 {
        current - 5
    } else {
        0
    }, if current + 6 <= len {
        current + 6
    } else {
        len
    })
}

impl EditSession {
    /// The path of the file.
    pub closed spec fn path_spec(&self) -> String {
        self.file_path
    }

    /// The lines of the file.
    pub closed spec fn lines_view(&self) -> Seq<Seq<char>> {
        views(self.lines@)
    }

    /// The 0-based line under the cursor.
    pub closed spec fn cursor(&self) -> int {
        self.current_line as int
    }

    /// The mode.
    pub closed spec fn mode_spec(&self) -> EditMode {
        self.mode
    }

    /// Whether a line was changed.
    pub closed spec fn modified_spec(&self) -> bool {
        self.modified
    }

    /// The undo record kept for the session.
    pub closed spec fn undo_spec(&self) -> Option<UndoInfo> {
        self.undo_info
    }

    /// The 0-based line of the match and its byte range.
    pub closed spec fn match_spec(&self) -> (int, int, int) {
        (self.match_line as int, self.match_start as int, self.match_end as int)
    }

    /// Starts a session on `content` at the 1-based `match_line`, in view
    /// mode, unmodified.
    pub fn new(file_path: String, content: &str, match_line: usize, match_start: usize, match_end: usize) -> (s: Self)
        ensures
            s.path_spec() == file_path,
            s.lines_view() == lines_of(content@),
            s.cursor() == if match_line > 0 {
                match_line - 1
            } else {
                0
            },
            s.mode_spec() == EditMode::View,
            !s.modified_spec(),
            s.match_spec() == (if match_line > 0 {
                match_line - 1
            } else {
                0
            }, match_start as int, match_end as int),
            s.undo_spec() is None,
    {
        let cs = chars_of(content);
        let lines = split_lines(&cs);
        let line = if match_line > 0 {
            match_line - 1
        } else {
            0
        };
        EditSession {
            file_path,
            lines,
            current_line: line,
            mode: EditMode::View,
            modified: false,
            match_line: line,
            match_start,
            match_end,
            undo_info: None,
        }
    }

    /// The path of the file.
    pub fn file_path(&self) -> (r: &String)
        ensures
            *r == self.path_spec(),
    {
        &self.file_path
    }

    /// The lines of the file.
    pub fn lines(&self) -> (r: &Vec<String>)
        ensures
            views(r@) == self.lines_view(),
    {
        &self.lines
    }

    /// The 0-based line under the cursor.
    pub fn current_line(&self) -> (r: usize)
        ensures
            r == self.cursor(),
    {
        self.current_line
    }

    /// The mode.
    pub fn mode(&self) -> (r: EditMode)
        ensures
            r == self.mode_spec(),
    {
        self.mode
    }

    /// Whether a line was changed.
    pub fn is_modified(&self) -> (r: bool)
        ensures
            r == self.modified_spec(),
    {
        self.modified
    }

    /// The undo record kept for the session.
    pub fn undo_info(&self) -> (r: &Option<UndoInfo>)
        ensures
            *r == self.undo_spec(),
    {
        &self.undo_info
    }

    /// The 0-based line of the match and the byte range of the match in it.
    pub fn match_range(&self) -> (r: (usize, usize, usize))
        ensures
            (r.0 as int, r.1 as int, r.2 as int) == self.match_spec(),
    {
        (self.match_line, self.match_start, self.match_end)
    }

    /// The lines shown around the cursor (see [`window_spec`]).
    pub fn window(&self) -> (r: (usize, usize))
        ensures
            (r.0 as int, r.1 as int) == window_spec(self.cursor(), self.lines_view().len() as int),
    {
        let start = if self.current_line >= 5 {
            self.current_line - 5
        } else {
            0
        };
        let end = if self.current_line <= self.lines.len() && self.lines.len() - self.current_line >= 6 {
            self.current_line + 6
        } else {
            self.lines.len()
        };
        (start, end)
    }

    /// The file's new content: the lines joined by newlines.
    pub fn content(&self) -> (r: String)
        ensures
            r@ == join_lines(self.lines_view()),
    {
        join_with_newlines(&self.lines)
    }

    /// Acts on a view-mode key: moves the cursor (within the file), enters
    /// line edit or replace mode, or says to save (when modified) or
    /// finish.
    pub fn apply_view_action(&mut self, action: EditAction) -> (step: EditStep)
        requires
            action == EditAction::MoveNext ==> old(self).lines_view().len() > 0,
        ensures
            final(self).lines_view() == old(self).lines_view(),
            final(self).modified_spec() == old(self).modified_spec(),
            final(self).undo_spec() == old(self).undo_spec(),
            final(self).match_spec() == old(self).match_spec(),
            final(self).cursor() == match action {
                EditAction::MovePrev => if old(self).cursor() > 0 {
                    old(self).cursor() - 1
                } else {
                    old(self).cursor()
                },
                EditAction::MoveNext => if old(self).cursor() < old(self).lines_view().len() - 1 {
                    old(self).cursor() + 1
                } else {
                    old(self).cursor()
                },
                _ => old(self).cursor(),
            },
            final(self).mode_spec() == match action {
                EditAction::StartEdit => EditMode::LineEdit,
                EditAction::StartReplace => EditMode::Replace,
                _ => old(self).mode_spec(),
            },
            step == match action {
                EditAction::Save => if old(self).modified_spec() {
                    EditStep::SaveAndFinish
                } else {
                    EditStep::Finish(false)
                },
                EditAction::Cancel => EditStep::Finish(false),
                _ => EditStep::Continue,
            },
    {
        proof {
            assert(self.lines_view().len() == self.lines@.len());
        }
        match action {
            EditAction::MovePrev => {
                if self.current_line > 0 {
                    self.current_line = self.current_line - 1;
                }
                EditStep::Continue
            },
            EditAction::MoveNext => {
                if self.current_line < self.lines.len() - 1 {
                    self.current_line = self.current_line + 1;
                }
                EditStep::Continue
            },
            EditAction::StartEdit => {
                self.mode = EditMode::LineEdit;
                EditStep::Continue
            },
            EditAction::StartReplace => {
                self.mode = EditMode::Replace;
                EditStep::Continue
            },
            EditAction::Save => {
                if self.modified {
                    EditStep::SaveAndFinish
                } else {
                    EditStep::Finish(false)
                }
            },
            EditAction::Cancel => EditStep::Finish(false),
            EditAction::Unknown => EditStep::Continue,
        }
    }

    /// Whether storing `input` at the cursor would be the session's first
    /// change, so that the caller makes a backup and an undo record first.
    pub fn needs_backup(&self, input: &str) -> (b: bool)
        requires
            0 <= self.cursor() < self.lines_view().len(),
        ensures
            b == (trim_seq(input@) != self.lines_view()[self.cursor()] && !self.modified_spec()
                && self.undo_spec() is None),
    {
        let cs = chars_of(input);
        let t = trim_chars(&cs);
        let cur = chars_of(self.lines[self.current_line].as_str());
        let same = t.len() == cur.len() && {
            let mut i: usize = 0;
            let mut eq = true;
            while i < t.len()
                invariant
                    t@.len() == cur@.len(),
                    0 <= i <= t@.len(),
                    eq == (forall|j: int| 0 <= j < i ==> t@[j] == cur@[j]),
                decreases t@.len() - i,
            {
                if t[i] != cur[i] {
                    eq = false;
                }
                i = i + 1;
            }
            eq
        };
        proof {
            if t@.len() == cur@.len() && same {
                assert(t@ =~= cur@);
            }
        }
        !same && !self.modified && self.undo_info.is_none()
    }

    /// Stores the trimmed `input` as the line under the cursor when it
    /// differs, keeping `undo` as the session's undo record when this is
    /// the first change; then goes back to view mode.
    pub fn edit_line(&mut self, input: &str, undo: Option<UndoInfo>)
        requires
            0 <= old(self).cursor() < old(self).lines_view().len(),
        ensures
            final(self).mode_spec() == EditMode::View,
            final(self).cursor() == old(self).cursor(),
            final(self).match_spec() == old(self).match_spec(),
            ({
                let new_line = trim_seq(input@);
                let changed = new_line != old(self).lines_view()[old(self).cursor()];
                &&& final(self).lines_view() == if changed {
                    old(self).lines_view().update(old(self).cursor(), new_line)
                } else {
                    old(self).lines_view()
                }
                &&& final(self).modified_spec() == (old(self).modified_spec() || changed)
                &&& final(self).undo_spec() == if changed && !old(self).modified_spec()
                    && old(self).undo_spec() is None {
                    undo
                } else {
                    old(self).undo_spec()
                }
            }),
    {
        let first = self.needs_backup(input);
        let cs = chars_of(input);
        let t = trim_chars(&cs);
        let cur = chars_of(self.lines[self.current_line].as_str());
        let changed = !(t.len() == cur.len() && {
            let mut i: usize = 0;
            let mut eq = true;
            while i < t.len()
                invariant
                    t@.len() == cur@.len(),
                    0 <= i <= t@.len(),
                    eq == (forall|j: int| 0 <= j < i ==> t@[j] == cur@[j]),
                decreases t@.len() - i,
            {
                if t[i] != cur[i] {
                    eq = false;
                }
                i = i + 1;
            }
            eq
        });
        proof {
            if t@.len() == cur@.len() && !changed {
                assert(t@ =~= cur@);
            }
        }
        if changed {
            if first {
                self.undo_info = undo;
            }
            let ghost before = self.lines@;
            let line = crate::text::string_from_chars(&t);
            self.lines.set(self.current_line, line);
            self.modified = true;
            assert(views(self.lines@) =~= views(before).update(self.current_line as int, t@));
        }
        self.mode = EditMode::View;
    }

    /// Whether line `i` contains `pattern`.
    pub fn line_contains(&self, i: usize, pattern: &str) -> (b: bool)
        requires
            i < self.lines_view().len(),
        ensures
            b == contains_seq(self.lines_view()[i as int], pattern@),
    {
        let l = chars_of(self.lines[i].as_str());
        let p = chars_of(pattern);
        contains_chars(&l, &p)
    }

    /// Line `i` with every occurrence of `pattern` replaced, as proposed
    /// before asking.
    pub fn replaced_line(&self, i: usize, pattern: &str, replacement: &str) -> (r: String)
        requires
            i < self.lines_view().len(),
        ensures
            r@ == replace_all_literal(self.lines_view()[i as int], pattern@, replacement@),
    {
        replace_text(self.lines[i].as_str(), pattern, replacement)
    }

    /// Replaces `pattern` by `replacement` in every line that contains it:
    /// all at once, or, when `confirm`, as `answers` say, one answer per
    /// such line in order (see [`replace_from`]); then goes back to view
    /// mode.
    pub fn replace_lines(&mut self, pattern: &str, replacement: &str, confirm: bool, answers: &Vec<ReplaceAnswer>)
        ensures
            ({
                let res = replace_from(old(self).lines_view(), pattern@, replacement@, 0, confirm, 0, answers@);
                &&& final(self).lines_view() == res.0
                &&& final(self).modified_spec() == (old(self).modified_spec() || res.1)
            }),
            final(self).mode_spec() == EditMode::View,
            final(self).cursor() == old(self).cursor(),
            final(self).match_spec() == old(self).match_spec(),
            final(self).undo_spec() == old(self).undo_spec(),
    {
        let ghost orig = self.lines_view();
        let ghost p = pattern@;
        let ghost r = replacement@;
        let n = self.lines.len();
        let mut ask = confirm;
        let mut k: usize = 0;
        let mut changed = false;
        let mut i: usize = 0;
        proof {
            assert(orig.take(0) + replace_from(orig, p, r, 0, ask, k as int, answers@).0 =~= replace_from(orig, p, r, 0, confirm, 0, answers@).0);
        }
        while i < n
            invariant
                n == self.lines@.len(),
                orig.len() == n,
                p == pattern@,
                r == replacement@,
                0 <= i <= n,
                k <= i,
                self.lines_view().skip(i as int) == orig.skip(i as int),
                self.lines_view().take(i as int) + replace_from(orig, p, r, i as int, ask, k as int, answers@).0
                    == replace_from(orig, p, r, 0, confirm, 0, answers@).0,
                (changed || replace_from(orig, p, r, i as int, ask, k as int, answers@).1)
                    == replace_from(orig, p, r, 0, confirm, 0, answers@).1,
                self.current_line == old(self).current_line,
                self.match_line == old(self).match_line,
                self.match_start == old(self).match_start,
                self.match_end == old(self).match_end,
                self.undo_info == old(self).undo_info,
                self.modified == old(self).modified,
            decreases n - i,
        {
            let ghost before = self.lines_view();
            let ghost st = replace_from(orig, p, r, i as int, ask, k as int, answers@);
            let ghost next_ask = ask;
            let ghost next_k = k;
            assert(before[i as int] == orig[i as int]) by {
                assert(before.skip(i as int)[0] == orig.skip(i as int)[0]);
            }
            let has = self.line_contains(i, pattern);
            let mut rewrite = false;
            if has {
                if !ask {
                    rewrite = true;
                } else {
                    let a = if k < answers.len() {
                        answers[k]
                    } else {
                        ReplaceAnswer::No
                    };
                    k = k + 1;
                    if a == ReplaceAnswer::All {
                        ask = false;
                        rewrite = true;
                    } else if a == ReplaceAnswer::Yes {
                        rewrite = true;
                    }
                }
            }
            let ghost rest = replace_from(orig, p, r, i + 1, ask, k as int, answers@);
            let ghost new_line = if rewrite {
                crate::text::replace_all_literal(orig[i as int], p, r)
            } else {
                orig[i as int]
            };
            assert(st.0 == seq![new_line].add(rest.0));
            assert(st.1 == (rewrite || rest.1));
            if rewrite {
                let line = self.replaced_line(i, pattern, replacement);
                self.lines.set(i, line);
                changed = true;
            }
            assert(self.lines_view() =~= before.update(i as int, new_line));
            assert(self.lines_view().take(i + 1) =~= self.lines_view().take(i as int).push(new_line));
            assert(self.lines_view().take(i + 1) + rest.0 =~= self.lines_view().take(i as int) + st.0);
            assert(self.lines_view().skip(i + 1) =~= orig.skip(i + 1)) by {
                assert forall|j: int| 0 <= j < orig.len() - i - 1 implies #[trigger] self.lines_view().skip(i + 1)[j]
                    == orig.skip(i + 1)[j] by {
                    assert(before.skip(i as int)[j + 1] == orig.skip(i as int)[j + 1]);
                }
            }
            i = i + 1;
        }
        proof {
            assert(self.lines_view().take(n as int) =~= self.lines_view());
            assert(replace_from(orig, p, r, n as int, ask, k as int, answers@).0 =~= Seq::<Seq<char>>::empty());
        }
        self.modified = self.modified || changed;
        self.mode = EditMode::View;
    }
}

/// The undo record of an interactive edit: one backup pair, the file's
/// size, described as an interactive edit of the file at `short_path`.
pub fn interactive_undo_info(
    timestamp: u64,
    short_path: &str,
    original: UndoFileReference,
    backup: UndoFileReference,
    file_size: u64,
) -> (u: UndoInfo)
    ensures
        u.timestamp == timestamp,
        u.description@ == "Interactive edit in file: "@ + short_path@,
        u.backups@ == seq![(original, backup)],
        u.total_size == file_size,
        u.file_count == 1,
        !u.dry_run,
        u.file_diffs@.len() == 0,
{
    let description = concat_text("Interactive edit in file: ", short_path);
    let mut backups: Vec<(UndoFileReference, UndoFileReference)> = Vec::new();
    backups.push((original, backup));
    UndoInfo {
        timestamp,
        description,
        backups,
        total_size: file_size,
        file_count: 1,
        dry_run: false,
        file_diffs: Vec::new(),
    }
}

} // verus!
