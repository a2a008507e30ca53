//! The log of the commands that were run: one line for each.

use vstd::prelude::*;
use crate::clock::{now, timestamp_text};
use crate::text::{chars_of, clone_texts, has_prefix, is_word, join, joined,
    law_joined_words_are_split_again, padding, push_padded,
    push_str, split_words, text_of, texts, texts_push, to_uppercase, uppercase, words};

verus! {

/// Width of the command in a displayed entry.
pub const COMMAND_WIDTH: usize = 8;

/// Width of the snapshot's name in a displayed entry.
pub const SNAPSHOT_WIDTH: usize = 20;

/// One command that was run.
#[derive(Debug, Clone)]
pub struct HistoryEntry {
    /// When it was run, as text.
    pub timestamp: String,
    /// The command, in capitals.
    pub command: String,
    /// The snapshot that it was run on, if on one.
    pub snapshot: Option<String>,
    /// The flags that it was run with.
    pub flags: Vec<String>,
}

/// What an entry holds.
pub struct EntryView {
    pub timestamp: Seq<char>,
    pub command: Seq<char>,
    pub snapshot: Option<Seq<char>>,
    pub flags: Seq<Seq<char>>,
}

impl View for HistoryEntry {
    type V = EntryView;

    open spec fn view(&self) -> EntryView {
        EntryView {
            timestamp: self.timestamp@,
            command: self.command@,
            snapshot: match self.snapshot {
                Some(s) => Some(s@),
                None => None,
            },
            flags: texts(self.flags@),
        }
    }
}

/// The views of a sequence of entries.
pub open spec fn views(entries: Seq<HistoryEntry>) -> Seq<EntryView> {
    Seq::new(entries.len(), |i: int| entries[i]@)
}

impl EntryView {
    /// The words of the entry's line: time, command, the snapshot where
    /// there is one, and the flags.
    pub open spec fn parts(&self) -> Seq<Seq<char>> {
        let head = seq![self.timestamp, self.command];
        match self.snapshot {
            Some(s) => head.push(s) + self.flags,
            None => head + self.flags,
        }
    }

    /// The entry's line in the log: its words with one space between each
    /// two.
    pub open spec fn line(&self) -> Seq<char> {
        joined(self.parts(), seq![' '])
    }

    /// The entry as a listing shows it: the command and the snapshot's
    /// name filled up to their widths, and the flags where there are any.
    pub open spec fn shown(&self) -> Seq<char> {
        let name = match self.snapshot {
            Some(s) => s,
            None => Seq::<char>::empty(),
        };
        let head = self.timestamp + seq![' '] + self.command + padding(
            self.command.len(),
            COMMAND_WIDTH as nat,
        ) + seq![' '] + name + padding(name.len(), SNAPSHOT_WIDTH as nat);
        if self.flags.len() > 0 {
            head + seq![' '] + joined(self.flags, seq![' '])
        } else {
            head
        }
    }
}

/// Whether a word is a flag: it opens with two dashes.
pub open spec fn is_flag(word: Seq<char>) -> bool {
    seq!['-', '-'].is_prefix_of(word)
}

/// The entry that a line of the log holds: none where it has fewer than
/// two words. The third word is the snapshot unless it is a flag.
pub open spec fn parsed(line: Seq<char>) -> Option<EntryView> {
    let w = words(line);
    if w.len() < 2 {
        None
    } else if w.len() > 2 && !is_flag(w[2]) {
        Some(
            EntryView {
                timestamp: w[0],
                command: w[1],
                snapshot: Some(w[2]),
                flags: w.subrange(3, w.len() as int),
            },
        )
    } else {
        Some(
            EntryView {
                timestamp: w[0],
                command: w[1],
                snapshot: None,
                flags: w.subrange(2, w.len() as int),
            },
        )
    }
}

/// An entry can be read back from its line: its time and its command are
/// words, its snapshot is a word that is no flag, its flags are words, and
/// where it has no snapshot its first flag, if it has one, is a flag.
pub open spec fn reads_back(e: EntryView) -> bool {
    &&& is_word(e.timestamp)
    &&& is_word(e.command)
    &&& forall|k: int| 0 <= k < e.flags.len() ==> is_word(#[trigger] e.flags[k])
    &&& match e.snapshot {
        Some(s) => is_word(s) && !is_flag(s),
        None => e.flags.len() > 0 ==> is_flag(e.flags[0]),
    }
}

/// A line that was written of an entry is read as that entry.
pub proof fn law_a_written_line_reads_back(e: EntryView)
    requires
        reads_back(e),
    ensures
        parsed(e.line()) == Some(e),
{
    let parts = e.parts();
    let head = seq![e.timestamp, e.command];
    match e.snapshot {
        Some(s) => {
            assert(parts =~= head.push(s) + e.flags);
            assert forall|k: int| 0 <= k < parts.len() implies is_word(#[trigger] parts[k]) by {
                if k >= 3 {
                    assert(parts[k] == e.flags[k - 3]);
                }
            }
            law_joined_words_are_split_again(parts);
            assert(parts[2] == s);
            assert(parts.subrange(3, parts.len() as int) =~= e.flags);
        },
        None => {
            assert(parts =~= head + e.flags);
            assert forall|k: int| 0 <= k < parts.len() implies is_word(#[trigger] parts[k]) by {
                if k >= 2 {
                    assert(parts[k] == e.flags[k - 2]);
                }
            }
            law_joined_words_are_split_again(parts);
            if parts.len() > 2 {
                assert(parts[2] == e.flags[0]);
            }
            assert(parts.subrange(2, parts.len() as int) =~= e.flags);
        },
    }
}

fn word_is_flag(word: &str) -> (yes: bool)
    ensures
        yes == is_flag(word@),
{
    let w = chars_of(word);
    let mut dashes: Vec<char> = Vec::new();
    dashes.push('-');
    dashes.push('-');
    assert(dashes@ =~= seq!['-', '-']);
    has_prefix(&w, &dashes)
}

fn tail_of(list: &Vec<String>, from: usize) -> (out: Vec<String>)
    requires
        from <= list.len(),
    ensures
        out@ == list@.subrange(from as int, list.len() as int),
        texts(out@) == texts(list@).subrange(from as int, list.len() as int),
{
    let mut out: Vec<String> = Vec::new();
    let mut i: usize = from;
    while i < list.len()
        invariant
            from <= i <= list.len(),
            out@ == list@.subrange(from as int, i as int),
        decreases list.len() - i,
    {
        out.push(list[i].clone());
        i = i + 1;
        assert(out@ =~= list@.subrange(from as int, i as int));
    }
    assert(texts(out@) =~= texts(list@).subrange(from as int, list.len() as int));
    out
}

impl HistoryEntry {
    /// An entry with the time that it is given.
    pub fn stamped(timestamp: String, command: &str, snapshot: Option<&str>, flags: Vec<String>) -> (out:
        Self)
        ensures
            out.timestamp == timestamp,
            out.command@ == uppercase(command@),
            match snapshot {
                Some(s) => out.snapshot matches Some(t) && t@ == s@,
                None => out.snapshot is None,
            },
            out.flags == flags,
    {
        let snapshot = match snapshot {
            Some(s) => Some(s.to_string()),
            None => None,
        };
        HistoryEntry { timestamp, command: to_uppercase(command), snapshot, flags }
    }

    /// An entry with the time now.
    pub fn new(command: &str, snapshot: Option<&str>, flags: Vec<String>) -> (out: Self)
        ensures
            out.command@ == uppercase(command@),
            match snapshot {
                Some(s) => out.snapshot matches Some(t) && t@ == s@,
                None => out.snapshot is None,
            },
            out.flags == flags,
    {
        HistoryEntry::stamped(timestamp_text(now()), command, snapshot, flags)
    }

    /// A copy that holds the same.
    pub fn duplicate(&self) -> (out: Self)
        ensures
            out@ == self@,
    {
        let snapshot = match &self.snapshot {
            Some(s) => Some(s.clone()),
            None => None,
        };
        let flags = clone_texts(&self.flags);
        assert(flags@ =~= self.flags@);
        HistoryEntry {
            timestamp: self.timestamp.clone(),
            command: self.command.clone(),
            snapshot,
            flags,
        }
    }

    /// The entry's line in the log.
    pub fn to_line(&self) -> (out: String)
        ensures
            out@ == self@.line(),
    {
        let mut parts: Vec<String> = Vec::new();
        parts.push(self.timestamp.clone());
        parts.push(self.command.clone());
        match &self.snapshot {
            Some(s) => {
                parts.push(s.clone());
            },
            None => {},
        }
        let ghost head = texts(parts@);
        let mut i: usize = 0;
        while i < self.flags.len()
            invariant
                i <= self.flags.len(),
                texts(parts@) == head + texts(self.flags@).subrange(0, i as int),
            decreases self.flags.len() - i,
        {
            proof {
                texts_push(parts@, self.flags@[i as int]);
            }
            parts.push(self.flags[i].clone());
            i = i + 1;
            assert(texts(parts@) =~= head + texts(self.flags@).subrange(0, i as int));
        }
        assert(texts(self.flags@).subrange(0, self.flags.len() as int) =~= texts(self.flags@));
        assert(head =~= match self@.snapshot {
            Some(s) => seq![self@.timestamp, self@.command].push(s),
            None => seq![self@.timestamp, self@.command],
        });
        assert(" "@ =~= seq![' ']) by {
            reveal_strlit(" ");
        }
        join(&parts, " ")
    }

    /// Reads an entry from a line of the log.
    pub fn from_line(line: &str) -> (out: Option<Self>)
        ensures
            match out {
                Some(e) => parsed(line@) == Some(e@),
                None => parsed(line@) is None,
            },
    {
        let parts = split_words(line);
        if parts.len() < 2 {
            return None;
        }
        assert(texts(parts@)[0] == parts@[0]@);
        assert(texts(parts@)[1] == parts@[1]@);
        let timestamp = parts[0].clone();
        let command = parts[1].clone();
        if parts.len() > 2 && !word_is_flag(parts[2].as_str()) {
            assert(texts(parts@)[2] == parts@[2]@);
            let snapshot = Some(parts[2].clone());
            let flags = tail_of(&parts, 3);
            Some(HistoryEntry { timestamp, command, snapshot, flags })
        } else {
            if parts.len() > 2 {
                assert(texts(parts@)[2] == parts@[2]@);
            }
            let flags = tail_of(&parts, 2);
            Some(HistoryEntry { timestamp, command, snapshot: None, flags })
        }
    }

    /// The entry as a listing shows it.
    pub fn display(&self) -> (out: String)
        ensures
            out@ == self@.shown(),
    {
        let mut buf: Vec<char> = chars_of(self.timestamp.as_str());
        buf.push(' ');
        let command = chars_of(self.command.as_str());
        push_padded(&mut buf, &command, COMMAND_WIDTH);
        buf.push(' ');
        let name: Vec<char> = match &self.snapshot {
            Some(s) => chars_of(s.as_str()),
            None => Vec::new(),
        };
        push_padded(&mut buf, &name, SNAPSHOT_WIDTH);
        let ghost shown_name = match self@.snapshot {
            Some(s) => s,
            None => Seq::<char>::empty(),
        };
        assert(name@ =~= shown_name);
        let ghost head = self@.timestamp + seq![' '] + self@.command + padding(
            self@.command.len(),
            COMMAND_WIDTH as nat,
        ) + seq![' '] + shown_name + padding(shown_name.len(), SNAPSHOT_WIDTH as nat);
        assert(buf@ =~= head);
        if self.flags.len() > 0 {
            buf.push(' ');
            assert(" "@ =~= seq![' ']) by {
                reveal_strlit(" ");
            }
            let flags = join(&self.flags, " ");
            push_str(&mut buf, flags.as_str());
            assert(buf@ =~= head + seq![' '] + joined(texts(self.flags@), seq![' ']));
        }
        text_of(&buf)
    }
}

/// The entries that were run on the snapshot `name`, in order.
pub open spec fn of_snapshot(entries: Seq<EntryView>, name: Seq<char>) -> Seq<EntryView>
    decreases entries.len(),
{
    if entries.len() == 0 {
        Seq::empty()
    } else {
        let before = of_snapshot(entries.drop_last(), name);
        if entries.last().snapshot == Some(name) {
            before.push(entries.last())
        } else {
            before
        }
    }
}

/// Keeps the entries that were run on `snapshot`.
pub fn filter_by_snapshot(entries: Vec<HistoryEntry>, snapshot: &str) -> (out: Vec<HistoryEntry>)
    ensures
        views(out@) == of_snapshot(views(entries@), snapshot@),
{
    let mut out: Vec<HistoryEntry> = Vec::new();
    let mut i: usize = 0;
    while i < entries.len()
        invariant
            i <= entries.len(),
            views(out@) == of_snapshot(views(entries@).subrange(0, i as int), snapshot@),
        decreases entries.len() - i,
    {
        assert(views(entries@).subrange(0, i + 1).drop_last() =~= views(entries@).subrange(
            0,
            i as int,
        ));
        assert(views(entries@).subrange(0, i + 1).last() == entries@[i as int]@);
        let keep = match &entries[i].snapshot {
            Some(s) => *s.as_str() == *snapshot,
            None => false,
        };
        if keep {
            let ghost before = views(out@);
            out.push(entries[i].duplicate());
            assert(views(out@) =~= before.push(entries@[i as int]@));
        }
        i = i + 1;
    }
    assert(views(entries@).subrange(0, entries.len() as int) =~= views(entries@));
    out
}

/// The last `n` of the entries, all of them where there are no more.
pub open spec fn last_of(entries: Seq<EntryView>, n: nat) -> Seq<EntryView> {
    if entries.len() <= n {
        entries
    } else {
        entries.subrange(entries.len() - n, entries.len() as int)
    }
}

/// Keeps the last `n` entries.
pub fn take_last(entries: Vec<HistoryEntry>, n: usize) -> (out: Vec<HistoryEntry>)
    ensures
        views(out@) == last_of(views(entries@), n as nat),
{
    let len: usize = entries.len();
    if len <= n {
        return entries;
    }
    let mut out: Vec<HistoryEntry> = Vec::new();
    let first: usize = len - n;
    let mut i: usize = first;
    while i < len
        invariant
            first <= i <= len,
            len == entries.len(),
            views(out@) == views(entries@).subrange(first as int, i as int),
        decreases len - i,
    {
        let ghost before = views(out@);
        out.push(entries[i].duplicate());
        assert(views(out@) =~= before.push(entries@[i as int]@));
        i = i + 1;
        assert(views(out@) =~= views(entries@).subrange(first as int, i as int));
    }
    out
}

/// The entries that the lines of a log hold: a line that holds none is
/// passed over.
pub open spec fn entries_of(lines: Seq<Seq<char>>) -> Seq<EntryView>
    decreases lines.len(),
{
    if lines.len() == 0 {
        Seq::empty()
    } else {
        let before = entries_of(lines.drop_last());
        match parsed(lines.last()) {
            Some(e) => before.push(e),
            None => before,
        }
    }
}

/// Reads the entries out of the lines of a log.
pub fn read_history(lines: &Vec<String>) -> (out: Vec<HistoryEntry>)
    ensures
        views(out@) == entries_of(texts(lines@)),
{
    let mut out: Vec<HistoryEntry> = Vec::new();
    let mut i: usize = 0;
    while i < lines.len()
        invariant
            i <= lines.len(),
            views(out@) == entries_of(texts(lines@).subrange(0, i as int)),
        decreases lines.len() - i,
    {
        assert(texts(lines@).subrange(0, i + 1).drop_last() =~= texts(lines@).subrange(
            0,
            i as int,
        ));
        assert(texts(lines@).subrange(0, i + 1).last() == lines@[i as int]@);
        match HistoryEntry::from_line(lines[i].as_str()) {
            Some(entry) => {
                let ghost before = views(out@);
                out.push(entry);
                assert(views(out@) =~= before.push(entry@));
            },
            None => {},
        }
        i = i + 1;
    }
    assert(texts(lines@).subrange(0, lines.len() as int) =~= texts(lines@));
    out
}

} // verus!
