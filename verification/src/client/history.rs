//! Command history for input recall.

use crate::text::str_eq;
use vstd::prelude::*;
use vstd::string::*;

verus! {

/// Mathematical value of a [`CommandHistory`].
pub struct HistoryView {
    /// The commands, oldest first.
    pub entries: Seq<Seq<char>>,
    /// The entry that is shown while the history is browsed.
    pub position: Option<usize>,
    /// The most entries kept.
    pub max_entries: usize,
    /// The input that was being typed when the browsing began.
    pub saved_input: Seq<char>,
}

impl HistoryView {
    /// While the history is browsed, the entry shown is one of the entries.
    pub open spec fn wf(self) -> bool {
        self.position matches Some(p) ==> p < self.entries.len()
    }

    /// The history after a command was added: an empty command, and one
    /// that repeats the last entry, change nothing; any other goes to the
    /// end, the oldest entry leaves where more than `max_entries` are held,
    /// and the browsing ends.
    pub open spec fn added(self, command: Seq<char>) -> HistoryView {
        if command.len() == 0 || (self.entries.len() > 0 && self.entries.last() == command) {
            self
        } else {
            HistoryView {
                entries: if self.entries.len() + 1 > self.max_entries {
                    self.entries.push(command).drop_first()
                } else {
                    self.entries.push(command)
                },
                position: None,
                saved_input: Seq::empty(),
                ..self
            }
        }
    }

    /// The history after a step to the older entry: the browsing begins at
    /// the newest entry and remembers the input, and stops at the oldest.
    pub open spec fn moved_up(self, current_input: Seq<char>) -> HistoryView {
        if self.entries.len() == 0 {
            self
        } else {
            match self.position {
                None => HistoryView {
                    position: Some((self.entries.len() - 1) as usize),
                    saved_input: current_input,
                    ..self
                },
                Some(p) => HistoryView {
                    position: Some(if p == 0 {
                        0usize
                    } else {
                        (p - 1) as usize
                    }),
                    ..self
                },
            }
        }
    }

    /// The history after a step to the newer entry: behind the newest
    /// entry the browsing ends.
    pub open spec fn moved_down(self) -> HistoryView {
        match self.position {
            None => self,
            Some(p) => if p + 1 >= self.entries.len() {
                HistoryView { position: None, ..self }
            } else {
                HistoryView { position: Some((p + 1) as usize), ..self }
            },
        }
    }

    /// What is shown after a step to the newer entry: that entry, or the
    /// remembered input where the browsing ends; nothing where the history
    /// was not browsed.
    pub open spec fn shown_below(self) -> Option<Seq<char>> {
        match self.position {
            None => None,
            Some(p) => if p + 1 >= self.entries.len() {
                Some(self.saved_input)
            } else {
                Some(self.entries[p + 1])
            },
        }
    }
}

/// Command history for input recall.
#[derive(Debug)]
pub struct CommandHistory {
    /// History entries (oldest first).
    entries: Vec<String>,
    /// Current position in history (None = not browsing history).
    position: Option<usize>,
    /// Maximum entries to keep.
    max_entries: usize,
    /// Saved current input when browsing history.
    saved_input: String,
}

impl View for CommandHistory {
    type V = HistoryView;

    closed spec fn view(&self) -> HistoryView {
        HistoryView {
            entries: self.entries.deep_view(),
            position: self.position,
            max_entries: self.max_entries,
            saved_input: self.saved_input@,
        }
    }
}

impl CommandHistory {
    /// An empty history that keeps at most `max_entries` commands.
    pub fn new(max_entries: usize) -> (history: Self)
        ensures
            history@ == (HistoryView {
                entries: Seq::empty(),
                position: None,
                max_entries,
                saved_input: Seq::empty(),
            }),
            history@.wf(),
    {
        let history = Self {
            entries: Vec::new(),
            position: None,
            max_entries,
            saved_input: String::new(),
        };
        assert(history@.entries =~= Seq::empty());
        history
    }

    /// Add a command to history (only if non-empty and different from last).
    pub fn add(&mut self, command: &str)
        requires
            old(self)@.wf(),
        ensures
            final(self)@ == old(self)@.added(command@),
            final(self)@.wf(),
    {
        if command.is_empty() {
            return ;
        }
        let n = self.entries.len();
        if n > 0 && str_eq(self.entries[n - 1].as_str(), command) {
            assert(self@.entries.last() == command@);
            return ;
        }
        let ghost before = self@.entries;
        if n > 0 {
            assert(before.last() == before[n - 1]);
        }
        self.entries.push(command.to_owned());
        assert(self.entries.deep_view() =~= before.push(command@));
        if self.entries.len() > self.max_entries {
            let _ = self.entries.remove(0);
            assert(self.entries.deep_view() =~= before.push(command@).drop_first());
        }
        self.position = None;
        self.saved_input = String::new();
    }

    /// Move up in history (older), returning the command to display.
    pub fn up(&mut self, current_input: &str) -> (shown: Option<&str>)
        requires
            old(self)@.wf(),
        ensures
            final(self)@ == old(self)@.moved_up(current_input@),
            final(self)@.wf(),
            old(self)@.entries.len() == 0 ==> shown is None,
            old(self)@.entries.len() > 0 ==> (shown matches Some(text) && final(self)@.position matches Some(p) && text@ == final(self)@.entries[p as int]),
    {
        if self.entries.len() == 0 {
            return None;
        }
        let new_pos = match self.position {
            None => {
                self.saved_input = current_input.to_owned();
                self.entries.len() - 1
            },
            Some(pos) => if pos == 0 {
                0
            } else {
                pos - 1
            },
        };
        self.position = Some(new_pos);
        Some(self.entries[new_pos].as_str())
    }

    /// Move down in history (newer), returning the command to display.
    pub fn down(&mut self) -> (shown: Option<&str>)
        requires
            old(self)@.wf(),
        ensures
            final(self)@ == old(self)@.moved_down(),
            final(self)@.wf(),
            shown.deep_view() == old(self)@.shown_below(),
    {
        match self.position {
            None => None,
            Some(pos) => {
                if pos >= self.entries.len() - 1 {
                    self.position = None;
                    Some(self.saved_input.as_str())
                } else {
                    self.position = Some(pos + 1);
                    Some(self.entries[pos + 1].as_str())
                }
            },
        }
    }

    /// Reset history browsing state.
    pub fn reset_position(&mut self)
        ensures
            final(self)@ == (HistoryView {
                position: None,
                saved_input: Seq::empty(),
                ..old(self)@
            }),
            final(self)@.wf(),
    {
        self.position = None;
        self.saved_input = String::new();
    }
}

} // verus!
