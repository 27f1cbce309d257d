//! The history store: the lines submitted so far, a cursor that walks
//! through them, and the text of the history file.

use crate::text::{join_lines, lemma_lines_of_unlines, lines_of, plain_line, split_lines, unlines};
use vstd::prelude::*;

verus! {

/// The lines submitted so far, oldest first.
pub struct History {
    commands: Vec<String>,
    cursor: Option<usize>,
    append_start: usize,
}

/// Where the cursor stands after a step towards older lines in a store of
/// `len` lines: on the newest line if it was absent, else one line older,
/// stopping at the oldest.
pub open spec fn older(cursor: Option<int>, len: int) -> Option<int> {
    if len <= 0 {
        cursor
    } else {
        match cursor {
            Some(i) => Some(if i > 0 {
                i - 1
            } else {
                0
            }),
            None => Some(len - 1),
        }
    }
}

/// Where the cursor stands after a step towards newer lines in a store of
/// `len` lines: one line newer, stopping at the newest; absent if it was
/// absent.
pub open spec fn newer(cursor: Option<int>, len: int) -> Option<int> {
    match cursor {
        Some(i) => Some(if i + 1 < len {
            i + 1
        } else {
            i
        }),
        None => None,
    }
}

/// The line under the cursor, if the cursor is present.
pub open spec fn line_at(entries: Seq<Seq<char>>, cursor: Option<int>) -> Option<Seq<char>> {
    match cursor {
        Some(i) => Some(entries[i]),
        None => None,
    }
}

impl History {
    /// The lines of the store, oldest first.
    pub closed spec fn entries(&self) -> Seq<Seq<char>> {
        self.commands.deep_view()
    }

    /// The position of the navigation cursor, if it is present.
    pub closed spec fn cursor(&self) -> Option<int> {
        match self.cursor {
            Some(i) => Some(i as int),
            None => None,
        }
    }

    /// How many of the lines have been handed out for appending to a file.
    pub closed spec fn flushed(&self) -> int {
        self.append_start as int
    }

    /// The cursor, where present, stands on a line of the store, and no
    /// more lines have been handed out than the store holds.
    pub closed spec fn wf(&self) -> bool {
        &&& self.cursor matches Some(i) ==> i < self.commands.len()
        &&& self.append_start <= self.commands.len()
    }

    /// In a well-formed store the cursor, where present, stands on a line,
    /// and no more lines were handed out than there are.
    pub proof fn lemma_wf(&self)
        requires
            self.wf(),
        ensures
            self.cursor() matches Some(i) ==> 0 <= i < self.entries().len(),
            0 <= self.flushed() <= self.entries().len(),
    {
    }

    /// An empty store.
    pub fn new() -> (h: Self)
        ensures
            h.wf(),
            h.entries() == Seq::<Seq<char>>::empty(),
            h.cursor().is_none(),
            h.flushed() == 0,
    {
        let h = Self { commands: Vec::new(), cursor: None, append_start: 0 };
        assert(h.commands.deep_view() =~= Seq::<Seq<char>>::empty());
        h
    }

    /// Moves the cursor one line towards the oldest and returns the line it
    /// then stands on. An empty store gives nothing.
    pub fn prev(&mut self) -> (line: Option<&String>)
        requires
            old(self).wf(),
        ensures
            final(self).wf(),
            final(self).entries() == old(self).entries(),
            final(self).flushed() == old(self).flushed(),
            final(self).cursor() == older(old(self).cursor(), old(self).entries().len() as int),
            old(self).entries().len() == 0 ==> line.is_none(),
            old(self).entries().len() > 0 ==> line.is_some() && Some(line->0@) == line_at(
                old(self).entries(),
                final(self).cursor(),
            ),
    {
        if self.commands.len() == 0 {
            return None;
        }
        let at = match self.cursor {
            Some(i) => if i > 0 {
                i - 1
            } else {
                0
            },
            None => self.commands.len() - 1,
        };
        self.cursor = Some(at);
        Some(&self.commands[at])
    }

    /// Moves the cursor one line towards the newest and returns the line it
    /// then stands on. A store whose cursor is absent gives nothing.
    pub fn next(&mut self) -> (line: Option<&String>)
        requires
            old(self).wf(),
        ensures
            final(self).wf(),
            final(self).entries() == old(self).entries(),
            final(self).flushed() == old(self).flushed(),
            final(self).cursor() == newer(old(self).cursor(), old(self).entries().len() as int),
            old(self).cursor().is_none() ==> line.is_none(),
            old(self).cursor().is_some() ==> line.is_some() && Some(line->0@) == line_at(
                old(self).entries(),
                final(self).cursor(),
            ),
    {
        match self.cursor {
            None => None,
            Some(i) => {
                let at = if i < self.commands.len() - 1 {
                    i + 1
                } else {
                    i
                };
                self.cursor = Some(at);
                Some(&self.commands[at])
            },
        }
    }

    /// Adds a line at the end and takes the cursor away.
    pub fn add(&mut self, command: String)
        requires
            old(self).wf(),
        ensures
            final(self).wf(),
            final(self).entries() == old(self).entries().push(command@),
            final(self).cursor().is_none(),
            final(self).flushed() == old(self).flushed(),
    {
        self.commands.push(command);
        self.cursor = None;
        assert(self.commands.deep_view() =~= old(self).commands.deep_view().push(command@));
    }

    /// The number of lines in the store.
    pub fn len(&self) -> (n: usize)
        ensures
            n == self.entries().len(),
    {
        self.commands.len()
    }

    /// The line at position `i`, counted from the oldest, if there is one.
    pub fn get(&self, i: usize) -> (line: Option<&String>)
        ensures
            i < self.entries().len() ==> line.is_some() && line->0@ == self.entries()[i as int],
            i >= self.entries().len() ==> line.is_none(),
    {
        if i < self.commands.len() {
            Some(&self.commands[i])
        } else {
            None
        }
    }

    /// Adds each line of `content`, the text of a history file, at the end,
    /// in the order of the file.
    pub fn read_lines(&mut self, content: &str)
        requires
            old(self).wf(),
        ensures
            final(self).wf(),
            final(self).entries() == old(self).entries() + lines_of(content@),
            final(self).cursor() == if lines_of(content@).len() > 0 {
                None
            } else {
                old(self).cursor()
            },
            final(self).flushed() == old(self).flushed(),
    {
        let lines = split_lines(content);
        let ghost all = lines.deep_view();
        let mut i: usize = 0;
        assert(self.entries() =~= old(self).entries() + all.take(0));
        while i < lines.len()
            invariant
                self.wf(),
                i <= lines.len(),
                all == lines.deep_view(),
                self.entries() == old(self).entries() + all.take(i as int),
                self.cursor() == if i > 0 {
                    None
                } else {
                    old(self).cursor()
                },
                self.flushed() == old(self).flushed(),
            decreases lines.len() - i,
        {
            let ghost before = self.entries();
            self.add(lines[i].clone());
            i += 1;
            assert(self.entries() =~= old(self).entries() + all.take(i as int));
        }
        assert(all.take(i as int) =~= all);
    }

    /// The text of a history file that holds every line of the store, one
    /// per line of the file.
    pub fn file_text(&self) -> (text: String)
        ensures
            text@ == unlines(self.entries()),
    {
        assert(self.entries().subrange(0, self.entries().len() as int) =~= self.entries());
        join_lines(&self.commands, 0)
    }

    /// The text to append to a history file: the lines added since the
    /// last call, one per line of the file. They count as handed out from
    /// now on.
    pub fn pending_text(&mut self) -> (text: String)
        requires
            old(self).wf(),
        ensures
            final(self).wf(),
            final(self).entries() == old(self).entries(),
            final(self).cursor() == old(self).cursor(),
            final(self).flushed() == old(self).entries().len(),
            text@ == unlines(
                old(self).entries().subrange(
                    old(self).flushed(),
                    old(self).entries().len() as int,
                ),
            ),
    {
        let text = join_lines(&self.commands, self.append_start);
        self.append_start = self.commands.len();
        text
    }
}

impl Default for History {
    fn default() -> (h: Self)
        ensures
            h.wf(),
            h.entries() == Seq::<Seq<char>>::empty(),
            h.cursor().is_none(),
            h.flushed() == 0,
    {
        History::new()
    }
}

/// Writing the store to a file and reading the file into an empty store
/// gives a store with the same lines in the same order, where each line is
/// plain: no line feed in it, no carriage return at its end.
pub proof fn lemma_write_then_read(written: History, fresh: History, read: History)
    requires
        forall|k: int| 0 <= k < written.entries().len() ==> plain_line(
            #[trigger] written.entries()[k],
        ),
        fresh.entries() == Seq::<Seq<char>>::empty(),
        read.entries() == fresh.entries() + lines_of(unlines(written.entries())),
    ensures
        read.entries() == written.entries(),
{
    lemma_lines_of_unlines(written.entries());
    assert(fresh.entries() + written.entries() =~= written.entries());
}

} // verus!
