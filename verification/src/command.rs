//! Reversible edit commands: the closed set of operations that may
//! mutate a document, each recording what it needs to undo itself
//! and the selection that stood before it ran.

use vstd::prelude::*;

use vstd::string::StrSliceExecFns;

use crate::doc::Document;
use crate::text::{insert_text, lemma_insert_then_remove, lemma_remove_then_insert, remove_text};

verus! {

/// A half-open character range.
#[derive(Clone, Copy, PartialEq, Eq, Structural, Debug)]
pub struct CharRange {
    pub start: usize,
    pub end: usize,
}

impl CharRange {
    pub open spec fn wf_for(&self, len: int) -> bool {
        self.start <= self.end <= len
    }

    pub fn new(start: usize, end: usize) -> (r: Self)
        ensures
            r.start == start,
            r.end == end,
    {
        CharRange { start, end }
    }

    pub open spec fn spec_is_empty(&self) -> bool {
        self.start == self.end
    }

    #[verifier::when_used_as_spec(spec_is_empty)]
    pub fn is_empty(&self) -> (r: bool)
        ensures
            r == self.spec_is_empty(),
    {
        self.start == self.end
    }
}

/// Inserts recorded text at a recorded position.
pub struct InsertCommand {
    pub position: usize,
    pub text: String,
    pub old_selection: CharRange,
}

impl InsertCommand {
    pub fn new(position: usize, text: String, old_selection: CharRange) -> (r: Self)
        ensures
            r.position == position,
            r.text == text,
            r.old_selection == old_selection,
    {
        Self { position, text, old_selection }
    }
}

/// Removes recorded text standing at a recorded position.
pub struct DeleteCommand {
    pub position: usize,
    pub text: String,
    pub old_selection: CharRange,
}

impl DeleteCommand {
    pub fn new(position: usize, text: String, old_selection: CharRange) -> (r: Self)
        ensures
            r.position == position,
            r.text == text,
            r.old_selection == old_selection,
    {
        Self { position, text, old_selection }
    }
}

/// The closed set of reversible edits; a new kind of edit must
/// extend this enum, so every match over it is checked for
/// exhaustiveness.
pub enum Command {
    Insert(InsertCommand),
    Delete(DeleteCommand),
}

impl Command {
    pub open spec fn position(&self) -> int {
        match self {
            Command::Insert(c) => c.position as int,
            Command::Delete(c) => c.position as int,
        }
    }

    pub open spec fn text(&self) -> Seq<char> {
        match self {
            Command::Insert(c) => c.text@,
            Command::Delete(c) => c.text@,
        }
    }

    pub open spec fn old_selection_spec(&self) -> CharRange {
        match self {
            Command::Insert(c) => c.old_selection,
            Command::Delete(c) => c.old_selection,
        }
    }

    /// What executing the command does to document content.
    pub open spec fn apply(&self, content: Seq<char>) -> Seq<char> {
        match self {
            Command::Insert(c) => insert_text(content, c.position as int, c.text@),
            Command::Delete(c) => remove_text(content, c.position as int, c.text@.len() as int),
        }
    }

    /// What undoing the command does to document content.
    pub open spec fn unapply(&self, content: Seq<char>) -> Seq<char> {
        match self {
            Command::Insert(c) => remove_text(content, c.position as int, c.text@.len() as int),
            Command::Delete(c) => insert_text(content, c.position as int, c.text@),
        }
    }

    /// The collapsed selection `execute` places: after the inserted
    /// text, or at the deletion point.
    pub open spec fn execute_selection(&self) -> CharRange {
        match self {
            Command::Insert(c) => CharRange {
                start: (c.position + c.text@.len()) as usize,
                end: (c.position + c.text@.len()) as usize,
            },
            Command::Delete(c) => CharRange { start: c.position, end: c.position },
        }
    }

    /// When the command may execute: its position is in bounds, and
    /// a deletion must name exactly the text standing at it.
    pub open spec fn valid_for(&self, content: Seq<char>) -> bool {
        match self {
            Command::Insert(c) => c.position + c.text@.len() <= usize::MAX && c.position
                <= content.len(),
            Command::Delete(c) => c.position + c.text@.len() <= usize::MAX && c.position
                + c.text@.len() <= content.len() && content.subrange(
                c.position as int,
                c.position + c.text@.len(),
            ) == c.text@,
        }
    }

    /// When the command may be undone: the content is what its own
    /// execution produced from some prior state.
    pub open spec fn undo_valid_for(&self, content: Seq<char>) -> bool {
        match self {
            Command::Insert(c) => c.position + c.text@.len() <= usize::MAX && c.position
                + c.text@.len() <= content.len() && content.subrange(
                c.position as int,
                c.position + c.text@.len(),
            ) == c.text@,
            Command::Delete(c) => c.position + c.text@.len() <= usize::MAX && c.position
                <= content.len(),
        }
    }

    /// Executing establishes the right to undo.
    pub proof fn lemma_apply_undo_valid(&self, content: Seq<char>)
        requires
            self.valid_for(content),
        ensures
            self.undo_valid_for(self.apply(content)),
            self.unapply(self.apply(content)) == content,
    {
        match self {
            Command::Insert(c) => {
                crate::text::lemma_insert_text_subrange(content, c.position as int, c.text@);
                lemma_insert_then_remove(content, c.position as int, c.text@);
            },
            Command::Delete(c) => {
                lemma_remove_then_insert(content, c.position as int, c.text@.len() as int);
            },
        }
    }

    /// Undoing re-establishes the right to execute.
    pub proof fn lemma_undo_apply_valid(&self, content: Seq<char>)
        requires
            self.undo_valid_for(content),
        ensures
            self.valid_for(self.unapply(content)),
            self.apply(self.unapply(content)) == content,
    {
        match self {
            Command::Insert(c) => {
                lemma_remove_then_insert(content, c.position as int, c.text@.len() as int);
            },
            Command::Delete(c) => {
                crate::text::lemma_insert_text_subrange(content, c.position as int, c.text@);
                lemma_insert_then_remove(content, c.position as int, c.text@);
            },
        }
    }

    /// Mutates the document as the command says and returns the
    /// selection to place after it: collapsed after the inserted
    /// text, or collapsed at the deletion point.
    pub fn execute(&self, content: &mut Document) -> (r: CharRange)
        requires
            self.valid_for(old(content)@),
        ensures
            final(content)@ == self.apply(old(content)@),
            r.wf_for(final(content)@.len() as int),
            r == self.execute_selection(),
            match self {
                Command::Insert(c) => r.start == c.position + c.text@.len() && r.end == r.start,
                Command::Delete(c) => r.start == c.position && r.end == r.start,
            },
    {
        match self {
            Command::Insert(c) => {
                content.insert(c.position, c.text.as_str());
                let new_pos = c.position + c.text.as_str().unicode_len();
                CharRange::new(new_pos, new_pos)
            },
            Command::Delete(c) => {
                let n = c.text.as_str().unicode_len();
                content.remove(c.position, c.position + n);
                CharRange::new(c.position, c.position)
            },
        }
    }

    /// Reverts the document to what it was before `execute` and
    /// returns the selection recorded before the command ran.
    pub fn undo(&self, content: &mut Document) -> (r: CharRange)
        requires
            self.undo_valid_for(old(content)@),
        ensures
            final(content)@ == self.unapply(old(content)@),
            r == self.old_selection_spec(),
    {
        match self {
            Command::Insert(c) => {
                let n = c.text.as_str().unicode_len();
                content.remove(c.position, c.position + n);
                c.old_selection
            },
            Command::Delete(c) => {
                content.insert(c.position, c.text.as_str());
                c.old_selection
            },
        }
    }

    /// The char range the edit touches in the document as it stands
    /// after execution (insert) or before it (delete).
    pub fn char_range(&self) -> (r: CharRange)
        requires
            self.position() + self.text().len() <= usize::MAX,
        ensures
            r.start == self.position(),
            r.end == self.position() + self.text().len(),
    {
        match self {
            Command::Insert(c) => CharRange::new(
                c.position,
                c.position + c.text.as_str().unicode_len(),
            ),
            Command::Delete(c) => CharRange::new(
                c.position,
                c.position + c.text.as_str().unicode_len(),
            ),
        }
    }
}

/// Content after executing each command of `cmds` in order.
pub open spec fn apply_all(content: Seq<char>, cmds: Seq<Command>) -> Seq<char>
    decreases cmds.len(),
{
    if cmds.len() == 0 {
        content
    } else {
        apply_all(cmds[0].apply(content), cmds.drop_first())
    }
}

/// Content after undoing each command of `cmds`, last first.
pub open spec fn undo_all(content: Seq<char>, cmds: Seq<Command>) -> Seq<char>
    decreases cmds.len(),
{
    if cmds.len() == 0 {
        content
    } else {
        undo_all(cmds.last().unapply(content), cmds.drop_last())
    }
}

/// Each command of `cmds` is valid on the content left by its
/// predecessors.
pub open spec fn all_valid(content: Seq<char>, cmds: Seq<Command>) -> bool
    decreases cmds.len(),
{
    if cmds.len() == 0 {
        true
    } else {
        cmds[0].valid_for(content) && all_valid(cmds[0].apply(content), cmds.drop_first())
    }
}

/// Round trip: executing any valid sequence of commands and then
/// undoing all of them, last first, restores the original content
/// exactly; the selection restored by the final undo is the one
/// recorded before the first command ran.
pub proof fn lemma_round_trip(content: Seq<char>, cmds: Seq<Command>)
    requires
        all_valid(content, cmds),
    ensures
        undo_all(apply_all(content, cmds), cmds) == content,
    decreases cmds.len(),
{
    if cmds.len() > 0 {
        let c0 = cmds[0];
        let rest = cmds.drop_first();
        lemma_round_trip(c0.apply(content), rest);
        assert(cmds =~= seq![c0] + rest);
        lemma_undo_all_snoc(apply_all(content, cmds), c0, rest);
        assert(apply_all(content, cmds) == apply_all(c0.apply(content), rest));
        c0.lemma_apply_undo_valid(content);
    }
}

/// Undoing `seq![c] + rest` is undoing `rest` and then undoing `c`.
proof fn lemma_undo_all_snoc(content: Seq<char>, c: Command, rest: Seq<Command>)
    ensures
        undo_all(content, seq![c] + rest) == c.unapply(undo_all(content, rest)),
    decreases rest.len(),
{
    let whole = seq![c] + rest;
    if rest.len() == 0 {
        assert(whole =~= seq![c]);
        assert(whole.len() == 1);
        assert(whole.last() == c);
        assert(whole.drop_last() =~= Seq::<Command>::empty());
        assert(undo_all(content, whole) == undo_all(c.unapply(content), whole.drop_last()));
        assert(undo_all(c.unapply(content), whole.drop_last()) == c.unapply(content));
        assert(undo_all(content, rest) == content);
    } else {
        assert(whole.last() == rest.last());
        assert(whole.drop_last() =~= seq![c] + rest.drop_last());
        assert(undo_all(content, whole) == undo_all(
            rest.last().unapply(content),
            seq![c] + rest.drop_last(),
        ));
        lemma_undo_all_snoc(rest.last().unapply(content), c, rest.drop_last());
    }
}

} // verus!
