//! The editing session: a document, a cursor/selection over it, the
//! undo/redo command log, highlights, the blink and scroll managers,
//! and the last layout the host painted with.
//!
//! Every mutator preserves the session invariant: the selection and
//! any marked range lie within the document, every command on the
//! undo stack can be undone from the current content, last first,
//! and every command on the redo stack can be re-executed.

use vstd::prelude::*;
use vstd::string::StrSliceExecFns;

use crate::blink::BlinkManager;
use crate::char_kind::{char_kind_of, CharKind};
use crate::command::{CharRange, Command, DeleteCommand, InsertCommand};
use crate::doc::Document;
use crate::layout::Lines;
use crate::scroll::{PointPx, RectPx, ScrollManager};
use crate::text::{insert_text, remove_text};

verus! {

/// Whether the input accepts line breaks.
#[derive(Clone, Copy, PartialEq, Eq, Structural, Debug)]
pub enum TextInputMode {
    SingleLine,
    Full,
}

/// The undo stack replays: each command, last first, may be undone
/// from the content its successors left behind, and the selection
/// it recorded fits the content its own undo restores.
pub open spec fn undo_ok(content: Seq<char>, stack: Seq<Command>) -> bool
    decreases stack.len(),
{
    stack.len() == 0 || {
        &&& stack.last().undo_valid_for(content)
        &&& stack.last().old_selection_spec().wf_for(
            stack.last().unapply(content).len() as int,
        )
        &&& undo_ok(stack.last().unapply(content), stack.drop_last())
    }
}

/// The redo stack replays: each command, last first, may be
/// executed on the content its successors produce.
pub open spec fn redo_ok(content: Seq<char>, stack: Seq<Command>) -> bool
    decreases stack.len(),
{
    stack.len() == 0 || {
        &&& stack.last().valid_for(content)
        &&& stack.last().old_selection_spec().wf_for(content.len() as int)
        &&& redo_ok(stack.last().apply(content), stack.drop_last())
    }
}

/// Where `select_to(offset)` takes a selection: the active end
/// moves to `offset`; if the range inverts, the ends swap and the
/// reversed flag flips, so start never exceeds end.
pub open spec fn select_to_spec(range: CharRange, reversed: bool, offset: usize) -> (
    CharRange,
    bool,
) {
    let moved = if reversed {
        CharRange { start: offset, end: range.end }
    } else {
        CharRange { start: range.start, end: offset }
    };
    if moved.end < moved.start {
        (CharRange { start: moved.end, end: moved.start }, !reversed)
    } else {
        (moved, reversed)
    }
}

/// A range clamped into a document of `len` characters, its start
/// never past its end.
pub open spec fn clamp_range(r: CharRange, len: int) -> CharRange {
    let s = if r.start <= len {
        r.start
    } else {
        len as usize
    };
    let e = if r.end <= len {
        r.end
    } else {
        len as usize
    };
    let s2 = if s <= e {
        s
    } else {
        e
    };
    CharRange { start: s2, end: e }
}

/// The selection's two character offsets own the two byte offsets:
/// each byte falls inside (or at) its character's encoding.
pub open spec fn byte_selection(s: Seq<char>, sel: CharRange, bs: int, be: int) -> bool {
    &&& crate::text::char_owns_byte(s, sel.start as int, bs)
    &&& crate::text::char_owns_byte(s, sel.end as int, be)
}

/// The counters a mutator may advance, each bounded from below by
/// its old value and from above by the stated step; a caller can
/// chain mutators by carrying linear slack in its own precondition.
pub open spec fn epoch_deltas(
    pre: TextInput,
    post: TextInput,
    blink: int,
    calc: int,
    show: int,
    content: int,
) -> bool {
    &&& pre.blink_manager.epoch <= post.blink_manager.epoch <= pre.blink_manager.epoch + blink
    &&& pre.scroll_manager.calc_epoch <= post.scroll_manager.calc_epoch
        <= pre.scroll_manager.calc_epoch + calc
    &&& pre.scroll_manager.show_epoch <= post.scroll_manager.show_epoch
        <= pre.scroll_manager.show_epoch + show
    &&& pre.content_epoch <= post.content_epoch <= pre.content_epoch + content
}

/// The editing session.
pub struct TextInput {
    pub mode: TextInputMode,
    pub content: Document,
    pub selected_range: CharRange,
    pub selection_reversed: bool,
    pub marked_range: Option<CharRange>,
    /// Byte ranges to render emphasised (search matches).
    pub highlights: Vec<CharRange>,
    pub blink_manager: BlinkManager,
    pub scroll_manager: ScrollManager,
    pub undo_stack: Vec<Command>,
    pub redo_stack: Vec<Command>,
    pub dirty: bool,
    pub settings_soft_wrap: bool,
    pub is_selecting: bool,
    pub is_scroll_dragging: bool,
    /// The layout of the last paint pass, handed back by the host.
    pub last_layout: Option<Lines>,
    pub last_bounds: Option<RectPx>,
    pub last_offset: Option<PointPx>,
    /// A scroll recomputation to run on the next paint: the epoch
    /// token it was scheduled under and the char offset to reveal.
    pub pending_scroll: Option<(usize, usize)>,
    /// The content-changed notification: grows whenever a command
    /// mutates the document, so an observer that remembers the last
    /// value it saw knows to re-parse and re-lay out.
    pub content_epoch: usize,
}

impl View for TextInput {
    type V = Seq<char>;

    open spec fn view(&self) -> Seq<char> {
        self.content@
    }
}

impl TextInput {
    /// The session invariant: selection and marked range in bounds,
    /// both stacks replayable, stored layout and scroll state sound.
    pub open spec fn wf(&self) -> bool {
        &&& self.selected_range.wf_for(self@.len() as int)
        &&& (self.marked_range is Some ==> self.marked_range.unwrap().wf_for(self@.len() as int))
        &&& undo_ok(self@, self.undo_stack@)
        &&& redo_ok(self@, self.redo_stack@)
        &&& self.scroll_manager.wf()
        &&& (self.last_layout is Some ==> self.last_layout.unwrap().wf())
    }

    /// Epoch counters have room to grow.
    pub open spec fn epochs_ok(&self) -> bool {
        &&& self.blink_manager.epoch < usize::MAX - 4
        &&& self.scroll_manager.calc_epoch < usize::MAX - 4
        &&& self.scroll_manager.show_epoch < usize::MAX - 4
        &&& self.content_epoch < usize::MAX - 4
    }

    pub open spec fn undo_stack_spec(&self) -> Seq<Command> {
        self.undo_stack@
    }

    pub open spec fn redo_stack_spec(&self) -> Seq<Command> {
        self.redo_stack@
    }

    /// In every state the invariant admits — and every mutator of
    /// this type both requires and re-establishes it — the selection
    /// is an ordered range inside the document: its start does not
    /// exceed its end, and both lie within `[0, length]` in
    /// characters.
    pub proof fn lemma_selection_in_bounds(&self)
        requires
            self.wf(),
        ensures
            self.selected_range.start <= self.selected_range.end,
            self.selected_range.end <= self@.len(),
            self.cursor_offset_spec() <= self@.len(),
    {
    }

    /// An empty session: empty document, collapsed selection at the
    /// start, clean, with nothing to undo.
    pub fn new(mode: TextInputMode) -> (r: Self)
        ensures
            r.wf(),
            r@ == Seq::<char>::empty(),
            r.mode == mode,
            r.selected_range == (CharRange { start: 0, end: 0 }),
            !r.selection_reversed,
            r.marked_range is None,
            !r.is_dirty(),
            !r.soft_wrap_enabled(),
            r.undo_stack_spec().len() == 0,
            r.redo_stack_spec().len() == 0,
            r.epochs_ok(),
    {
        TextInput {
            mode,
            content: Document::new(),
            selected_range: CharRange::new(0, 0),
            selection_reversed: false,
            marked_range: None,
            highlights: Vec::new(),
            blink_manager: BlinkManager::new(),
            scroll_manager: ScrollManager::new(),
            undo_stack: Vec::new(),
            redo_stack: Vec::new(),
            dirty: false,
            settings_soft_wrap: false,
            is_selecting: false,
            is_scroll_dragging: false,
            last_layout: None,
            last_bounds: None,
            last_offset: None,
            pending_scroll: None,
            content_epoch: 0,
        }
    }

    pub open spec fn is_dirty_spec(&self) -> bool {
        self.dirty
    }

    #[verifier::when_used_as_spec(is_dirty_spec)]
    pub fn is_dirty(&self) -> (r: bool)
        ensures
            r == self.is_dirty_spec(),
    {
        self.dirty
    }

    pub fn mark_dirty(&mut self, value: bool)
        ensures
            *final(self) == (TextInput { dirty: value, ..*old(self) }),
    {
        self.dirty = value;
    }

    pub open spec fn soft_wrap_enabled_spec(&self) -> bool {
        self.settings_soft_wrap
    }

    #[verifier::when_used_as_spec(soft_wrap_enabled_spec)]
    pub fn soft_wrap_enabled(&self) -> (r: bool)
        ensures
            r == self.soft_wrap_enabled_spec(),
    {
        self.settings_soft_wrap
    }

    /// The active end of the selection: where the cursor is.
    pub fn cursor_offset(&self) -> (r: usize)
        ensures
            r == self.cursor_offset_spec(),
    {
        if self.selection_reversed {
            self.selected_range.start
        } else {
            self.selected_range.end
        }
    }

    pub open spec fn cursor_offset_spec(&self) -> usize {
        if self.selection_reversed {
            self.selected_range.start
        } else {
            self.selected_range.end
        }
    }

    /// Collapses the selection at `offset`, forces the cursor
    /// visible, and schedules a scroll recomputation under a fresh
    /// token (recorded in `pending_scroll` for the next paint).
    pub fn move_to(&mut self, offset: usize)
        requires
            old(self).wf(),
            old(self).blink_manager.epoch < usize::MAX,
            old(self).scroll_manager.calc_epoch < usize::MAX,
            offset <= old(self)@.len(),
        ensures
            final(self).wf(),
            final(self)@ == old(self)@,
            final(self).blink_manager.epoch == old(self).blink_manager.epoch + 1,
            final(self).scroll_manager.show_epoch == old(self).scroll_manager.show_epoch,
            final(self).content_epoch == old(self).content_epoch,
            final(self).last_layout == old(self).last_layout,
            final(self).last_bounds == old(self).last_bounds,
            final(self).last_offset == old(self).last_offset,
            final(self).highlights == old(self).highlights,
            final(self).is_selecting == old(self).is_selecting,
            final(self).is_scroll_dragging == old(self).is_scroll_dragging,
            final(self).mode == old(self).mode,
            final(self).selected_range == (CharRange { start: offset, end: offset }),
            final(self).selection_reversed == old(self).selection_reversed,
            final(self).blink_manager.show && final(self).blink_manager.paused,
            final(self).pending_scroll == Some(
                (final(self).scroll_manager.calc_epoch, offset),
            ),
            final(self).scroll_manager.calc_epoch == old(self).scroll_manager.calc_epoch + 1,
            final(self).undo_stack_spec() == old(self).undo_stack_spec(),
            final(self).redo_stack_spec() == old(self).redo_stack_spec(),
            final(self).is_dirty() == old(self).is_dirty(),
            final(self).marked_range == old(self).marked_range,
    {
        self.selected_range = CharRange::new(offset, offset);
        let _blink_epoch = self.blink_manager.pause();
        let epoch = self.scroll_manager.next_calc_epoch();
        self.pending_scroll = Some((epoch, offset));
    }

    /// Extends the active end of the selection to `offset`,
    /// flipping direction if the range inverts, and schedules a
    /// scroll recomputation.
    pub fn select_to(&mut self, offset: usize)
        requires
            old(self).wf(),
            old(self).scroll_manager.calc_epoch < usize::MAX,
            offset <= old(self)@.len(),
        ensures
            final(self).wf(),
            final(self)@ == old(self)@,
            final(self).blink_manager == old(self).blink_manager,
            final(self).scroll_manager.show_epoch == old(self).scroll_manager.show_epoch,
            final(self).content_epoch == old(self).content_epoch,
            final(self).last_layout == old(self).last_layout,
            final(self).last_bounds == old(self).last_bounds,
            final(self).last_offset == old(self).last_offset,
            final(self).highlights == old(self).highlights,
            final(self).is_selecting == old(self).is_selecting,
            final(self).is_scroll_dragging == old(self).is_scroll_dragging,
            final(self).mode == old(self).mode,
            ({
                let (range, rev) = select_to_spec(
                    old(self).selected_range,
                    old(self).selection_reversed,
                    offset,
                );
                final(self).selected_range == range && final(self).selection_reversed == rev
            }),
            final(self).selected_range.start <= final(self).selected_range.end,
            final(self).pending_scroll == Some(
                (final(self).scroll_manager.calc_epoch, offset),
            ),
            final(self).scroll_manager.calc_epoch == old(self).scroll_manager.calc_epoch + 1,
            final(self).undo_stack_spec() == old(self).undo_stack_spec(),
            final(self).redo_stack_spec() == old(self).redo_stack_spec(),
            final(self).is_dirty() == old(self).is_dirty(),
            final(self).marked_range == old(self).marked_range,
    {
        if self.selection_reversed {
            self.selected_range.start = offset;
        } else {
            self.selected_range.end = offset;
        }

        if self.selected_range.end < self.selected_range.start {
            self.selection_reversed = !self.selection_reversed;
            self.selected_range = CharRange::new(self.selected_range.end, self.selected_range.start);
        }

        let epoch = self.scroll_manager.next_calc_epoch();
        self.pending_scroll = Some((epoch, offset));
    }

    /// The previous character boundary, clamped at the start.
    pub fn previous_boundary(&self, offset: usize) -> (r: usize)
        ensures
            r as int == if offset > 0 {
                offset - 1
            } else {
                0int
            },
    {
        if offset > 0 {
            offset - 1
        } else {
            0
        }
    }

    /// The next character boundary, clamped at the end.
    pub fn next_boundary(&self, offset: usize) -> (r: usize)
        ensures
            r as int == if offset < self@.len() {
                offset + 1
            } else {
                self@.len() as int
            },
    {
        let len = self.content.len_chars();
        if offset < len {
            offset + 1
        } else {
            len
        }
    }

    /// Replaces the selection (or the given or marked range) by
    /// `text`: a recorded deletion of what stood there, then a
    /// recorded insertion, so both can be undone; the redo stack is
    /// cleared, the document marked dirty, and the selection
    /// collapses after the inserted text.
    pub fn replace_text_in_range(&mut self, range_given: Option<CharRange>, text: &str)
        requires
            old(self).wf(),
            old(self).blink_manager.epoch < usize::MAX,
            old(self).scroll_manager.calc_epoch < usize::MAX,
            old(self).content_epoch < usize::MAX - 2,
            range_given is Some ==> range_given.unwrap().wf_for(old(self)@.len() as int),
            old(self)@.len() + text@.len() <= usize::MAX,
        ensures
            final(self).wf(),
            epoch_deltas(*old(self), *final(self), 1, 1, 0, 2),
            final(self).blink_manager.epoch == old(self).blink_manager.epoch + 1,
            final(self).scroll_manager.calc_epoch == old(self).scroll_manager.calc_epoch + 1,
            final(self).scroll_manager.show_epoch == old(self).scroll_manager.show_epoch,
            ({
                let r = if range_given is Some {
                    range_given.unwrap()
                } else if old(self).marked_range is Some {
                    old(self).marked_range.unwrap()
                } else {
                    old(self).selected_range
                };
                let after_delete = remove_text(old(self)@, r.start as int, r.end - r.start);
                &&& final(self)@ == insert_text(after_delete, r.start as int, text@)
                &&& final(self).selected_range == (CharRange {
                    start: (r.start + text@.len()) as usize,
                    end: (r.start + text@.len()) as usize,
                })
                &&& (r.start < r.end || text@.len() > 0) ==> (final(self).is_dirty()
                    && final(self).redo_stack_spec().len() == 0)
                &&& (r.start == r.end && text@.len() == 0) ==> (final(self).is_dirty() == old(
                    self,
                ).is_dirty() && final(self).undo_stack_spec() == old(self).undo_stack_spec()
                    && final(self).redo_stack_spec() == old(self).redo_stack_spec())
                &&& ({
                    let deleted = old(self)@.subrange(r.start as int, r.end as int);
                    let stack = final(self).undo_stack_spec();
                    let base = old(self).undo_stack_spec().len() as int;
                    &&& (r.start < r.end && text@.len() > 0) ==> {
                        &&& stack.len() == base + 2
                        &&& stack.take(base) == old(self).undo_stack_spec()
                        &&& stack[base] is Delete && stack[base].position() == r.start
                            && stack[base].text() == deleted && stack[base].old_selection_spec()
                            == old(self).selected_range
                        &&& stack[base + 1] is Insert && stack[base + 1].position() == r.start
                            && stack[base + 1].text() == text@ && stack[base
                            + 1].old_selection_spec() == clamp_range(
                            old(self).selected_range,
                            after_delete.len() as int,
                        )
                    }
                    &&& (r.start < r.end && text@.len() == 0) ==> {
                        &&& stack.len() == base + 1
                        &&& stack.take(base) == old(self).undo_stack_spec()
                        &&& stack[base] is Delete && stack[base].position() == r.start
                            && stack[base].text() == deleted && stack[base].old_selection_spec()
                            == old(self).selected_range
                    }
                    &&& (r.start == r.end && text@.len() > 0) ==> {
                        &&& stack.len() == base + 1
                        &&& stack.take(base) == old(self).undo_stack_spec()
                        &&& stack[base] is Insert && stack[base].position() == r.start
                            && stack[base].text() == text@ && stack[base].old_selection_spec()
                            == clamp_range(old(self).selected_range, old(self)@.len() as int)
                    }
                })
            }),
            final(self).marked_range is None,
            final(self).blink_manager.show && final(self).blink_manager.paused,
            final(self).selection_reversed == old(self).selection_reversed,
            ({
                let r = if range_given is Some {
                    range_given.unwrap()
                } else if old(self).marked_range is Some {
                    old(self).marked_range.unwrap()
                } else {
                    old(self).selected_range
                };
                &&& ((r.start < r.end || text@.len() > 0) ==> final(self).content_epoch > old(
                    self,
                ).content_epoch)
                &&& ((r.start == r.end && text@.len() == 0) ==> final(self).content_epoch == old(
                    self,
                ).content_epoch)
            }),
    {
        let range = match range_given {
            Some(r) => r,
            None => match self.marked_range {
                Some(m) => m,
                None => self.selected_range,
            },
        };

        if range.start != range.end {
            let old_text = self.content.slice_string(range.start, range.end);
            proof {
                assert(old_text@.len() == range.end - range.start);
            }
            let cmd = Command::Delete(
                DeleteCommand::new(range.start, old_text, self.selected_range),
            );
            self.execute_command(cmd);
        }

        if text.unicode_len() > 0 {
            let sel = self.clamped_selection();
            let cmd = Command::Insert(
                InsertCommand::new(range.start, text.to_owned(), sel),
            );
            proof {
                assert(self@.len() >= range.start);
            }
            self.execute_command(cmd);
            proof {
                let base = old(self).undo_stack_spec().len() as int;
                if range.start < range.end {
                    assert(self.undo_stack@.take(base) =~= old(self).undo_stack@);
                }
            }
        } else {
            proof {
                let r = range;
                let after_delete = remove_text(old(self)@, r.start as int, r.end - r.start);
                assert(insert_text(after_delete, r.start as int, text@) =~= after_delete);
                if r.start == r.end {
                    assert(after_delete =~= old(self)@);
                }
            }
        }

        let l = text.unicode_len();
        let target = range.start + l;
        self.update_selected_range(CharRange::new(target, target));
    }

    /// The current selection, clamped into the current content; it
    /// is already within bounds whenever the invariant holds.
    fn clamped_selection(&self) -> (r: CharRange)
        ensures
            r.wf_for(self@.len() as int),
            r == clamp_range(self.selected_range, self@.len() as int),
            self.selected_range.wf_for(self@.len() as int) ==> r == self.selected_range,
    {
        let len = self.content.len_chars();
        let start = if self.selected_range.start <= len {
            self.selected_range.start
        } else {
            len
        };
        let end = if self.selected_range.end <= len {
            self.selected_range.end
        } else {
            len
        };
        let start2 = if start <= end {
            start
        } else {
            end
        };
        CharRange::new(start2, end)
    }

    /// Runs a command: mutates the document, pushes the command for
    /// undoing, clears the redo stack and marks the session dirty.
    fn execute_command(&mut self, command: Command)
        requires
            undo_ok(old(self)@, old(self).undo_stack_spec()),
            redo_ok(old(self)@, old(self).redo_stack_spec()),
            old(self).content_epoch < usize::MAX,
            command.valid_for(old(self)@),
            command.old_selection_spec().wf_for(old(self)@.len() as int),
        ensures
            final(self)@ == command.apply(old(self)@),
            final(self).undo_stack_spec() == old(self).undo_stack_spec().push(command),
            final(self).redo_stack_spec().len() == 0,
            final(self).is_dirty(),
            undo_ok(final(self)@, final(self).undo_stack_spec()),
            redo_ok(final(self)@, final(self).redo_stack_spec()),
            final(self).selected_range == old(self).selected_range,
            final(self).selection_reversed == old(self).selection_reversed,
            final(self).marked_range == old(self).marked_range,
            final(self).blink_manager == old(self).blink_manager,
            final(self).scroll_manager == old(self).scroll_manager,
            final(self).last_layout == old(self).last_layout,
            final(self).mode == old(self).mode,
            final(self).settings_soft_wrap == old(self).settings_soft_wrap,
            final(self).pending_scroll == old(self).pending_scroll,
            final(self).content_epoch == old(self).content_epoch + 1,
    {
        let ghost old_content = self@;
        let _ = command.execute(&mut self.content);
        proof {
            command.lemma_apply_undo_valid(old_content);
        }
        self.undo_stack.push(command);
        self.redo_stack = Vec::new();
        self.dirty = true;
        self.content_epoch = self.content_epoch + 1;
        proof {
            assert(self.undo_stack@.last() == command);
            assert(self.undo_stack@.drop_last() =~= old(self).undo_stack@);
            assert(command.unapply(self@) == old_content);
        }
    }

    /// Undoes the most recent command, restoring the content and
    /// the selection recorded before it ran, and makes it
    /// redoable. With nothing to undo, changes nothing.
    pub fn undo(&mut self)
        requires
            old(self).wf(),
            old(self).blink_manager.epoch < usize::MAX - 2,
            old(self).scroll_manager.calc_epoch < usize::MAX - 2,
            old(self).scroll_manager.show_epoch < usize::MAX - 2,
            old(self).content_epoch < usize::MAX - 2,
        ensures
            final(self).wf(),
            epoch_deltas(*old(self), *final(self), 1, 1, 0, 0),
            old(self).undo_stack_spec().len() == 0 ==> final(self)@ == old(self)@
                && final(self).undo_stack_spec() == old(self).undo_stack_spec()
                && final(self).redo_stack_spec() == old(self).redo_stack_spec()
                && final(self).selected_range == old(self).selected_range
                && final(self).marked_range == old(self).marked_range,
            old(self).undo_stack_spec().len() > 0 ==> ({
                let cmd = old(self).undo_stack_spec().last();
                &&& final(self)@ == cmd.unapply(old(self)@)
                &&& final(self).undo_stack_spec() == old(self).undo_stack_spec().drop_last()
                &&& final(self).redo_stack_spec() == old(self).redo_stack_spec().push(cmd)
                &&& final(self).selected_range == cmd.old_selection_spec()
                &&& final(self).marked_range is None
            }),
            final(self).is_dirty() == old(self).is_dirty(),
            final(self).highlights == old(self).highlights,
            final(self).selection_reversed == old(self).selection_reversed,
    {
        let cmd = match self.undo_stack.pop() {
            None => {
                return ;
            },
            Some(c) => c,
        };
        let ghost old_content = self@;
        proof {
            assert(old(self).undo_stack@.last() == cmd);
            assert(self.undo_stack@ =~= old(self).undo_stack@.drop_last());
        }
        let prev_selection = cmd.undo(&mut self.content);
        proof {
            cmd.lemma_undo_apply_valid(old_content);
        }
        self.redo_stack.push(cmd);
        proof {
            assert(self.redo_stack@.last() == cmd);
            assert(self.redo_stack@.drop_last() =~= old(self).redo_stack@);
            assert(cmd.apply(self@) == old_content);
        }
        self.update_selected_range(prev_selection);
    }

    /// Re-runs the most recently undone command and places the
    /// selection after it. With nothing to redo, changes nothing.
    pub fn redo(&mut self)
        requires
            old(self).wf(),
            old(self).blink_manager.epoch < usize::MAX - 2,
            old(self).scroll_manager.calc_epoch < usize::MAX - 2,
            old(self).scroll_manager.show_epoch < usize::MAX - 2,
            old(self).content_epoch < usize::MAX - 2,
        ensures
            final(self).wf(),
            epoch_deltas(*old(self), *final(self), 1, 1, 0, 0),
            old(self).redo_stack_spec().len() == 0 ==> final(self)@ == old(self)@
                && final(self).undo_stack_spec() == old(self).undo_stack_spec()
                && final(self).redo_stack_spec() == old(self).redo_stack_spec()
                && final(self).selected_range == old(self).selected_range
                && final(self).marked_range == old(self).marked_range,
            old(self).redo_stack_spec().len() > 0 ==> ({
                let cmd = old(self).redo_stack_spec().last();
                &&& final(self)@ == cmd.apply(old(self)@)
                &&& final(self).redo_stack_spec() == old(self).redo_stack_spec().drop_last()
                &&& final(self).undo_stack_spec() == old(self).undo_stack_spec().push(cmd)
                &&& final(self).selected_range == cmd.execute_selection()
                &&& final(self).marked_range is None
            }),
            final(self).is_dirty() == old(self).is_dirty(),
            final(self).highlights == old(self).highlights,
            final(self).selection_reversed == old(self).selection_reversed,
    {
        let cmd = match self.redo_stack.pop() {
            None => {
                return ;
            },
            Some(c) => c,
        };
        let ghost old_content = self@;
        proof {
            assert(old(self).redo_stack@.last() == cmd);
            assert(self.redo_stack@ =~= old(self).redo_stack@.drop_last());
        }
        let new_selection = cmd.execute(&mut self.content);
        proof {
            cmd.lemma_apply_undo_valid(old_content);
        }
        self.undo_stack.push(cmd);
        proof {
            assert(self.undo_stack@.last() == cmd);
            assert(self.undo_stack@.drop_last() =~= old(self).undo_stack@);
            assert(cmd.unapply(self@) == old_content);
        }
        self.update_selected_range(new_selection);
    }

    /// Places the selection, clears any marked range, forces the
    /// cursor visible and schedules a scroll to the new start.
    fn update_selected_range(&mut self, range: CharRange)
        requires
            old(self).blink_manager.epoch < usize::MAX,
            old(self).scroll_manager.calc_epoch < usize::MAX,
            range.wf_for(old(self)@.len() as int),
        ensures
            final(self)@ == old(self)@,
            final(self).blink_manager.epoch == old(self).blink_manager.epoch + 1,
            final(self).scroll_manager.calc_epoch == old(self).scroll_manager.calc_epoch + 1,
            final(self).scroll_manager.show_epoch == old(self).scroll_manager.show_epoch,
            final(self).content_epoch == old(self).content_epoch,
            final(self).selected_range == range,
            final(self).highlights == old(self).highlights,
            final(self).marked_range is None,
            final(self).selection_reversed == old(self).selection_reversed,
            final(self).blink_manager.show && final(self).blink_manager.paused,
            final(self).undo_stack_spec() == old(self).undo_stack_spec(),
            final(self).redo_stack_spec() == old(self).redo_stack_spec(),
            final(self).scroll_manager.offset == old(self).scroll_manager.offset,
            final(self).scroll_manager.wf() == old(self).scroll_manager.wf(),
            final(self).last_layout == old(self).last_layout,
            final(self).is_dirty() == old(self).is_dirty(),
            final(self).mode == old(self).mode,
            final(self).settings_soft_wrap == old(self).settings_soft_wrap,
            final(self).pending_scroll == Some(
                (final(self).scroll_manager.calc_epoch, range.start),
            ),
    {
        self.selected_range = range;
        self.marked_range = None;
        let _blink_epoch = self.blink_manager.pause();
        let epoch = self.scroll_manager.next_calc_epoch();
        self.pending_scroll = Some((epoch, range.start));
    }

    /// Inserts text at the marked range or the selection, leaving
    /// the cursor collapsed after it; the edit is recorded for undo.
    pub fn insert(&mut self, text: &str)
        requires
            old(self).wf(),
            old(self).blink_manager.epoch < usize::MAX - 2,
            old(self).scroll_manager.calc_epoch < usize::MAX - 2,
            old(self).scroll_manager.show_epoch < usize::MAX - 2,
            old(self).content_epoch < usize::MAX - 2,
            old(self)@.len() + text@.len() <= usize::MAX,
        ensures
            final(self).wf(),
            epoch_deltas(*old(self), *final(self), 1, 1, 0, 2),
            ({
                let r = if old(self).marked_range is Some {
                    old(self).marked_range.unwrap()
                } else {
                    old(self).selected_range
                };
                let after_delete = remove_text(old(self)@, r.start as int, r.end - r.start);
                &&& final(self)@ == insert_text(after_delete, r.start as int, text@)
                &&& final(self).selected_range == (CharRange {
                    start: (r.start + text@.len()) as usize,
                    end: (r.start + text@.len()) as usize,
                })
                &&& (r.start < r.end || text@.len() > 0) ==> (final(self).is_dirty()
                    && final(self).redo_stack_spec().len() == 0)
                &&& text@.len() > 0 ==> final(self).undo_stack_spec().len()
                    > old(self).undo_stack_spec().len()
                    && final(self).undo_stack_spec().last() is Insert
                    && final(self).undo_stack_spec().last().text() == text@
                    && final(self).undo_stack_spec().last().position() == r.start
                &&& (r.start == r.end && text@.len() > 0) ==> ({
                    let stack = final(self).undo_stack_spec();
                    let base = old(self).undo_stack_spec().len() as int;
                    &&& stack.len() == base + 1
                    &&& stack.take(base) == old(self).undo_stack_spec()
                    &&& stack[base].old_selection_spec() == clamp_range(
                        old(self).selected_range,
                        old(self)@.len() as int,
                    )
                })
            }),
            final(self).marked_range is None,
    {
        self.replace_text_in_range(None, text);
    }

    /// Stores the byte ranges to render emphasised.
    pub fn highlight(&mut self, highlights: Vec<CharRange>)
        ensures
            *final(self) == (TextInput { highlights: highlights, ..*old(self) }),
    {
        self.highlights = highlights;
    }

    /// Drops all emphasis ranges.
    pub fn clear_highlights(&mut self)
        ensures
            final(self).highlights@.len() == 0,
            final(self)@ == old(self)@,
            final(self).wf() == old(self).wf(),
            final(self).selected_range == old(self).selected_range,
    {
        self.highlights = Vec::new();
    }

    /// Turns soft wrapping on or off and schedules a scroll to the
    /// cursor under a fresh token.
    pub fn set_soft_wrap(&mut self, enabled: bool)
        requires
            old(self).wf(),
            old(self).blink_manager.epoch < usize::MAX - 2,
            old(self).scroll_manager.calc_epoch < usize::MAX - 2,
            old(self).scroll_manager.show_epoch < usize::MAX - 2,
            old(self).content_epoch < usize::MAX - 2,
        ensures
            final(self).wf(),
            epoch_deltas(*old(self), *final(self), 0, 1, 0, 0),
            final(self).soft_wrap_enabled() == enabled,
            final(self)@ == old(self)@,
            final(self).selected_range == old(self).selected_range,
    {
        self.settings_soft_wrap = enabled;
        let cursor = self.cursor_offset();
        let epoch = self.scroll_manager.next_calc_epoch();
        self.pending_scroll = Some((epoch, cursor));
    }
}


/// Where the word scan forward from `t` stops: at the first class
/// transition not out of whitespace, once the initial punctuation
/// run is consumed.
pub open spec fn end_word_from(s: Seq<char>, t: int, prev: Option<char>, consumed: bool) -> int
    decreases s.len() - t,
    when 0 <= t <= s.len()
{
    if t >= s.len() {
        t
    } else {
        let ch = s[t];
        if consumed && prev is Some && char_kind_of(prev.unwrap()) != char_kind_of(ch)
            && char_kind_of(prev.unwrap()) != CharKind::WhiteSpace {
            t
        } else {
            let c2 = if !consumed {
                char_kind_of(ch) != CharKind::Punctuation
            } else {
                true
            };
            end_word_from(s, t + 1, Some(ch), c2)
        }
    }
}

/// Where the word scan backward from `t` stops, mirroring
/// `end_word_from` over the characters before `t`.
pub open spec fn start_word_from(s: Seq<char>, t: int, prev: Option<char>, consumed: bool) -> int
    decreases t,
    when 0 <= t <= s.len()
{
    if t <= 0 {
        0
    } else {
        let ch = s[t - 1];
        if consumed && prev is Some && char_kind_of(prev.unwrap()) != char_kind_of(ch)
            && char_kind_of(prev.unwrap()) != CharKind::WhiteSpace {
            t
        } else {
            let c2 = if !consumed {
                char_kind_of(ch) != CharKind::Punctuation
            } else {
                true
            };
            start_word_from(s, t - 1, Some(ch), c2)
        }
    }
}

/// The forward scan never moves backward nor past the end.
pub proof fn lemma_end_word_bounds(s: Seq<char>, t: int, prev: Option<char>, consumed: bool)
    requires
        0 <= t <= s.len(),
    ensures
        t <= end_word_from(s, t, prev, consumed) <= s.len(),
    decreases s.len() - t,
{
    if t < s.len() {
        let ch = s[t];
        if !(consumed && prev is Some && char_kind_of(prev.unwrap()) != char_kind_of(ch)
            && char_kind_of(prev.unwrap()) != CharKind::WhiteSpace) {
            let c2 = if !consumed {
                char_kind_of(ch) != CharKind::Punctuation
            } else {
                true
            };
            lemma_end_word_bounds(s, t + 1, Some(ch), c2);
        }
    }
}

/// The backward scan never moves forward nor below zero.
pub proof fn lemma_start_word_bounds(s: Seq<char>, t: int, prev: Option<char>, consumed: bool)
    requires
        0 <= t <= s.len(),
    ensures
        0 <= start_word_from(s, t, prev, consumed) <= t,
    decreases t,
{
    if t > 0 {
        let ch = s[t - 1];
        if !(consumed && prev is Some && char_kind_of(prev.unwrap()) != char_kind_of(ch)
            && char_kind_of(prev.unwrap()) != CharKind::WhiteSpace) {
            let c2 = if !consumed {
                char_kind_of(ch) != CharKind::Punctuation
            } else {
                true
            };
            lemma_start_word_bounds(s, t - 1, Some(ch), c2);
        }
    }
}

impl TextInput {
    /// The offset where the word containing (or preceding) `offset`
    /// begins: scans backward through an initial punctuation run,
    /// then to the nearest class transition not out of whitespace.
    pub fn start_of_word(&self, offset: usize) -> (r: usize)
        requires
            offset <= self@.len(),
        ensures
            r == start_word_from(self@, offset as int, None, false),
            r <= offset,
    {
        proof {
            lemma_start_word_bounds(self@, offset as int, None, false);
        }
        let ghost target = start_word_from(self@, offset as int, None, false);
        let mut t: usize = offset;
        let mut prev: Option<char> = None;
        let mut consumed = false;
        loop
            invariant
                0 <= t <= offset <= self@.len(),
                target == start_word_from(self@, offset as int, None, false),
                start_word_from(self@, t as int, prev, consumed) == target,
            decreases t,
        {
            if t == 0 {
                return 0;
            }
            let ch = self.content.char_at(t - 1);
            if consumed {
                if let Some(p) = prev {
                    let kp = CharKind::kind(p);
                    if kp != CharKind::kind(ch) && kp != CharKind::WhiteSpace {
                        return t;
                    }
                }
            } else {
                consumed = CharKind::kind(ch) != CharKind::Punctuation;
            }
            t = t - 1;
            prev = Some(ch);
        }
    }

    /// The offset where the word containing (or following) `offset`
    /// ends: the forward mirror of `start_of_word`.
    pub fn end_of_word(&self, offset: usize) -> (r: usize)
        requires
            offset <= self@.len(),
        ensures
            r == end_word_from(self@, offset as int, None, false),
            offset <= r <= self@.len(),
    {
        proof {
            lemma_end_word_bounds(self@, offset as int, None, false);
        }
        let ghost target = end_word_from(self@, offset as int, None, false);
        let n = self.content.len_chars();
        let mut t: usize = offset;
        let mut prev: Option<char> = None;
        let mut consumed = false;
        loop
            invariant
                offset <= t <= n == self@.len(),
                target == end_word_from(self@, offset as int, None, false),
                end_word_from(self@, t as int, prev, consumed) == target,
            decreases n - t,
        {
            if t >= n {
                return t;
            }
            let ch = self.content.char_at(t);
            if consumed {
                if let Some(p) = prev {
                    let kp = CharKind::kind(p);
                    if kp != CharKind::kind(ch) && kp != CharKind::WhiteSpace {
                        return t;
                    }
                }
            } else {
                consumed = CharKind::kind(ch) != CharKind::Punctuation;
            }
            t = t + 1;
            prev = Some(ch);
        }
    }

    /// Left arrow: collapse to the selection start, or step one
    /// character back.
    pub fn left(&mut self)
        requires
            old(self).wf(),
            old(self).blink_manager.epoch < usize::MAX - 2,
            old(self).scroll_manager.calc_epoch < usize::MAX - 2,
            old(self).scroll_manager.show_epoch < usize::MAX - 2,
            old(self).content_epoch < usize::MAX - 2,
        ensures
            final(self).wf(),
            epoch_deltas(*old(self), *final(self), 1, 1, 0, 0),
            final(self)@ == old(self)@,
            old(self).selected_range.is_empty() ==> final(self).selected_range.start as int == (
            if old(self).cursor_offset_spec() > 0 {
                old(self).cursor_offset_spec() - 1
            } else {
                0int
            }),
            !old(self).selected_range.is_empty() ==> final(self).selected_range.start == old(
                self,
            ).selected_range.start,
            final(self).selected_range.is_empty(),
    {
        if self.selected_range.is_empty() {
            let c = self.cursor_offset();
            let p = self.previous_boundary(c);
            self.move_to(p);
        } else {
            let s = self.selected_range.start;
            self.move_to(s);
        }
    }

    /// Right arrow: collapse to the selection end, or step one
    /// character forward.
    pub fn right(&mut self)
        requires
            old(self).wf(),
            old(self).blink_manager.epoch < usize::MAX - 2,
            old(self).scroll_manager.calc_epoch < usize::MAX - 2,
            old(self).scroll_manager.show_epoch < usize::MAX - 2,
            old(self).content_epoch < usize::MAX - 2,
        ensures
            final(self).wf(),
            epoch_deltas(*old(self), *final(self), 1, 1, 0, 0),
            final(self)@ == old(self)@,
            old(self).selected_range.is_empty() ==> final(self).selected_range.start as int == (
            if old(self).selected_range.end < old(self)@.len() {
                old(self).selected_range.end + 1
            } else {
                old(self)@.len() as int
            }),
            !old(self).selected_range.is_empty() ==> final(self).selected_range.start == old(
                self,
            ).selected_range.end,
            final(self).selected_range.is_empty(),
    {
        if self.selected_range.is_empty() {
            let e = self.selected_range.end;
            let p = self.next_boundary(e);
            self.move_to(p);
        } else {
            let e = self.selected_range.end;
            self.move_to(e);
        }
    }

    /// Deletes the marked range or the selection, or the character
    /// before the cursor when the selection is empty.
    pub fn backspace(&mut self)
        requires
            old(self).wf(),
            old(self).blink_manager.epoch < usize::MAX - 2,
            old(self).scroll_manager.calc_epoch < usize::MAX - 2,
            old(self).scroll_manager.show_epoch < usize::MAX - 2,
            old(self).content_epoch < usize::MAX - 2,
            old(self)@.len() < usize::MAX,
        ensures
            final(self).wf(),
            epoch_deltas(*old(self), *final(self), 1, 2, 0, 2),
            ({
                let c = old(self).cursor_offset_spec() as int;
                let p = if c > 0 {
                    c - 1
                } else {
                    0int
                };
                let r = if old(self).marked_range is Some {
                    (old(self).marked_range.unwrap().start as int,
                    old(self).marked_range.unwrap().end as int)
                } else if old(self).selected_range.is_empty() {
                    (p, c)
                } else {
                    (old(self).selected_range.start as int, old(self).selected_range.end as int)
                };
                final(self)@ == remove_text(old(self)@, r.0, r.1 - r.0)
                    && final(self).selected_range == (CharRange {
                    start: r.0 as usize,
                    end: r.0 as usize,
                })
            }),
            final(self).marked_range is None,
    {
        if self.selected_range.is_empty() {
            let c = self.cursor_offset();
            let p = self.previous_boundary(c);
            self.select_to(p);
        }
        proof {
            reveal_strlit("");
        }
        self.replace_text_in_range(None, "");
    }

    /// Deletes the marked range or the selection, or the character
    /// after the cursor when the selection is empty.
    pub fn delete(&mut self)
        requires
            old(self).wf(),
            old(self).blink_manager.epoch < usize::MAX - 2,
            old(self).scroll_manager.calc_epoch < usize::MAX - 2,
            old(self).scroll_manager.show_epoch < usize::MAX - 2,
            old(self).content_epoch < usize::MAX - 2,
            old(self)@.len() < usize::MAX,
        ensures
            final(self).wf(),
            epoch_deltas(*old(self), *final(self), 1, 2, 0, 2),
            ({
                let c = old(self).cursor_offset_spec() as int;
                let n = if c < old(self)@.len() {
                    c + 1
                } else {
                    old(self)@.len() as int
                };
                let r = if old(self).marked_range is Some {
                    (old(self).marked_range.unwrap().start as int,
                    old(self).marked_range.unwrap().end as int)
                } else if old(self).selected_range.is_empty() {
                    (c, n)
                } else {
                    (old(self).selected_range.start as int, old(self).selected_range.end as int)
                };
                final(self)@ == remove_text(old(self)@, r.0, r.1 - r.0)
                    && final(self).selected_range == (CharRange {
                    start: r.0 as usize,
                    end: r.0 as usize,
                })
            }),
            final(self).marked_range is None,
    {
        if self.selected_range.is_empty() {
            let c = self.cursor_offset();
            let p = self.next_boundary(c);
            self.select_to(p);
        }
        proof {
            reveal_strlit("");
        }
        self.replace_text_in_range(None, "");
    }

    /// Home: the start of the document.
    pub fn home(&mut self)
        requires
            old(self).wf(),
            old(self).blink_manager.epoch < usize::MAX - 2,
            old(self).scroll_manager.calc_epoch < usize::MAX - 2,
            old(self).scroll_manager.show_epoch < usize::MAX - 2,
            old(self).content_epoch < usize::MAX - 2,
        ensures
            final(self).wf(),
            epoch_deltas(*old(self), *final(self), 1, 1, 0, 0),
            final(self)@ == old(self)@,
            final(self).selected_range == (CharRange { start: 0, end: 0 }),
    {
        self.move_to(0);
    }

    /// End: the end of the document.
    pub fn end(&mut self)
        requires
            old(self).wf(),
            old(self).blink_manager.epoch < usize::MAX - 2,
            old(self).scroll_manager.calc_epoch < usize::MAX - 2,
            old(self).scroll_manager.show_epoch < usize::MAX - 2,
            old(self).content_epoch < usize::MAX - 2,
        ensures
            final(self).wf(),
            epoch_deltas(*old(self), *final(self), 1, 1, 0, 0),
            final(self)@ == old(self)@,
            final(self).selected_range.start == old(self)@.len(),
            final(self).selected_range.is_empty(),
    {
        let n = self.content.len_chars();
        self.move_to(n);
    }

    /// Selects the whole document, anchor at the start.
    pub fn select_all(&mut self)
        requires
            old(self).wf(),
            old(self).blink_manager.epoch < usize::MAX - 2,
            old(self).scroll_manager.calc_epoch < usize::MAX - 2,
            old(self).scroll_manager.show_epoch < usize::MAX - 2,
            old(self).content_epoch < usize::MAX - 2,
        ensures
            final(self).wf(),
            epoch_deltas(*old(self), *final(self), 1, 2, 0, 0),
            final(self)@ == old(self)@,
            final(self).selected_range.start == 0,
            final(self).selected_range.end == old(self)@.len(),
            old(self)@.len() > 0 ==> !final(self).selection_reversed,
            final(self).cursor_offset_spec() == old(self)@.len(),
    {
        self.move_to(0);
        let n = self.content.len_chars();
        self.select_to(n);
    }

    /// A line break at the selection, in full mode only.
    pub fn new_line(&mut self)
        requires
            old(self).wf(),
            old(self).blink_manager.epoch < usize::MAX - 2,
            old(self).scroll_manager.calc_epoch < usize::MAX - 2,
            old(self).scroll_manager.show_epoch < usize::MAX - 2,
            old(self).content_epoch < usize::MAX - 2,
            old(self)@.len() < usize::MAX,
        ensures
            final(self).wf(),
            epoch_deltas(*old(self), *final(self), 1, 1, 0, 2),
            old(self).mode == TextInputMode::SingleLine ==> *final(self) == *old(self),
            old(self).mode == TextInputMode::Full ==> ({
                let r = if old(self).marked_range is Some {
                    old(self).marked_range.unwrap()
                } else {
                    old(self).selected_range
                };
                let after_delete = remove_text(old(self)@, r.start as int, r.end - r.start);
                final(self)@ == insert_text(after_delete, r.start as int, seq!['\n'])
                    && final(self).selected_range == (CharRange {
                    start: (r.start + 1) as usize,
                    end: (r.start + 1) as usize,
                })
            }),
    {
        if self.mode != TextInputMode::Full {
            return ;
        }
        proof {
            reveal_strlit("\n");
        }
        self.replace_text_in_range(None, "\n");
    }

    /// A line break at the end of the cursor's visual line, in full
    /// mode only: the cursor first jumps past the line, so the line
    /// is never split.
    pub fn new_line_without_split(&mut self)
        requires
            old(self).wf(),
            old(self).blink_manager.epoch < usize::MAX - 2,
            old(self).scroll_manager.calc_epoch < usize::MAX - 2,
            old(self).scroll_manager.show_epoch < usize::MAX - 2,
            old(self).content_epoch < usize::MAX - 2,
            old(self)@.len() < usize::MAX,
        ensures
            final(self).wf(),
            epoch_deltas(*old(self), *final(self), 2, 2, 0, 2),
            old(self).mode == TextInputMode::SingleLine ==> *final(self) == *old(self),
            (old(self).mode == TextInputMode::Full && old(self).marked_range is None) ==> ({
                let p = old(self).end_of_line_spec(old(self).cursor_offset_spec() as int);
                final(self)@ == insert_text(old(self)@, p, seq!['\n'])
                    && final(self).selected_range == (CharRange {
                    start: (p + 1) as usize,
                    end: (p + 1) as usize,
                })
            }),
    {
        if self.mode != TextInputMode::Full {
            return ;
        }
        let c = self.cursor_offset();
        let p = self.position_for_end_of_line(c);
        self.move_to(p);
        proof {
            reveal_strlit("\n");
            assert(remove_text(old(self)@, p as int, 0) =~= old(self)@);
        }
        self.replace_text_in_range(None, "\n");
    }

    /// Extends the selection one character to the left.
    pub fn select_left(&mut self)
        requires
            old(self).wf(),
            old(self).blink_manager.epoch < usize::MAX - 2,
            old(self).scroll_manager.calc_epoch < usize::MAX - 2,
            old(self).scroll_manager.show_epoch < usize::MAX - 2,
            old(self).content_epoch < usize::MAX - 2,
        ensures
            final(self).wf(),
            epoch_deltas(*old(self), *final(self), 0, 1, 0, 0),
            final(self)@ == old(self)@,
            ({
                let c = old(self).cursor_offset_spec();
                let p = if c > 0 {
                    (c - 1) as usize
                } else {
                    0usize
                };
                let (range, rev) = select_to_spec(
                    old(self).selected_range,
                    old(self).selection_reversed,
                    p,
                );
                final(self).selected_range == range && final(self).selection_reversed == rev
            }),
    {
        let c = self.cursor_offset();
        let p = self.previous_boundary(c);
        self.select_to(p);
    }

    /// Extends the selection one character to the right.
    pub fn select_right(&mut self)
        requires
            old(self).wf(),
            old(self).blink_manager.epoch < usize::MAX - 2,
            old(self).scroll_manager.calc_epoch < usize::MAX - 2,
            old(self).scroll_manager.show_epoch < usize::MAX - 2,
            old(self).content_epoch < usize::MAX - 2,
        ensures
            final(self).wf(),
            epoch_deltas(*old(self), *final(self), 0, 1, 0, 0),
            final(self)@ == old(self)@,
            ({
                let c = old(self).cursor_offset_spec();
                let p = if c < old(self)@.len() {
                    (c + 1) as usize
                } else {
                    old(self)@.len() as usize
                };
                let (range, rev) = select_to_spec(
                    old(self).selected_range,
                    old(self).selection_reversed,
                    p,
                );
                final(self).selected_range == range && final(self).selection_reversed == rev
            }),
    {
        let c = self.cursor_offset();
        let p = self.next_boundary(c);
        self.select_to(p);
    }

    /// Extends the selection to the start of the current word.
    pub fn select_word_start(&mut self)
        requires
            old(self).wf(),
            old(self).blink_manager.epoch < usize::MAX - 2,
            old(self).scroll_manager.calc_epoch < usize::MAX - 2,
            old(self).scroll_manager.show_epoch < usize::MAX - 2,
            old(self).content_epoch < usize::MAX - 2,
        ensures
            final(self).wf(),
            epoch_deltas(*old(self), *final(self), 0, 1, 0, 0),
            final(self)@ == old(self)@,
            ({
                let p = start_word_from(
                    old(self)@,
                    old(self).cursor_offset_spec() as int,
                    None,
                    false,
                );
                let (range, rev) = select_to_spec(
                    old(self).selected_range,
                    old(self).selection_reversed,
                    p as usize,
                );
                final(self).selected_range == range && final(self).selection_reversed == rev
            }),
    {
        let c = self.cursor_offset();
        let p = self.start_of_word(c);
        self.select_to(p);
    }

    /// Extends the selection to the end of the current word.
    pub fn select_word_end(&mut self)
        requires
            old(self).wf(),
            old(self).blink_manager.epoch < usize::MAX - 2,
            old(self).scroll_manager.calc_epoch < usize::MAX - 2,
            old(self).scroll_manager.show_epoch < usize::MAX - 2,
            old(self).content_epoch < usize::MAX - 2,
        ensures
            final(self).wf(),
            epoch_deltas(*old(self), *final(self), 0, 1, 0, 0),
            final(self)@ == old(self)@,
            ({
                let p = end_word_from(
                    old(self)@,
                    old(self).cursor_offset_spec() as int,
                    None,
                    false,
                );
                let (range, rev) = select_to_spec(
                    old(self).selected_range,
                    old(self).selection_reversed,
                    p as usize,
                );
                final(self).selected_range == range && final(self).selection_reversed == rev
            }),
    {
        let c = self.cursor_offset();
        let p = self.end_of_word(c);
        self.select_to(p);
    }

    /// Moves the cursor to the start of the current word.
    pub fn move_to_word_start(&mut self)
        requires
            old(self).wf(),
            old(self).blink_manager.epoch < usize::MAX - 2,
            old(self).scroll_manager.calc_epoch < usize::MAX - 2,
            old(self).scroll_manager.show_epoch < usize::MAX - 2,
            old(self).content_epoch < usize::MAX - 2,
        ensures
            final(self).wf(),
            epoch_deltas(*old(self), *final(self), 1, 1, 0, 0),
            final(self)@ == old(self)@,
            final(self).selected_range.start == start_word_from(
                old(self)@,
                old(self).cursor_offset_spec() as int,
                None,
                false,
            ),
            final(self).selected_range.is_empty(),
    {
        let c = self.cursor_offset();
        let p = self.start_of_word(c);
        self.move_to(p);
    }

    /// Moves the cursor to the end of the current word.
    pub fn move_to_word_end(&mut self)
        requires
            old(self).wf(),
            old(self).blink_manager.epoch < usize::MAX - 2,
            old(self).scroll_manager.calc_epoch < usize::MAX - 2,
            old(self).scroll_manager.show_epoch < usize::MAX - 2,
            old(self).content_epoch < usize::MAX - 2,
        ensures
            final(self).wf(),
            epoch_deltas(*old(self), *final(self), 1, 1, 0, 0),
            final(self)@ == old(self)@,
            final(self).selected_range.start == end_word_from(
                old(self)@,
                old(self).cursor_offset_spec() as int,
                None,
                false,
            ),
            final(self).selected_range.is_empty(),
    {
        let c = self.cursor_offset();
        let p = self.end_of_word(c);
        self.move_to(p);
    }

    /// Moves the cursor to the start of the document.
    pub fn move_to_doc_start(&mut self)
        requires
            old(self).wf(),
            old(self).blink_manager.epoch < usize::MAX - 2,
            old(self).scroll_manager.calc_epoch < usize::MAX - 2,
            old(self).scroll_manager.show_epoch < usize::MAX - 2,
            old(self).content_epoch < usize::MAX - 2,
        ensures
            final(self).wf(),
            epoch_deltas(*old(self), *final(self), 1, 1, 0, 0),
            final(self)@ == old(self)@,
            final(self).selected_range == (CharRange { start: 0, end: 0 }),
    {
        self.move_to(0);
    }

    /// Moves the cursor to the end of the document.
    pub fn move_to_doc_end(&mut self)
        requires
            old(self).wf(),
            old(self).blink_manager.epoch < usize::MAX - 2,
            old(self).scroll_manager.calc_epoch < usize::MAX - 2,
            old(self).scroll_manager.show_epoch < usize::MAX - 2,
            old(self).content_epoch < usize::MAX - 2,
        ensures
            final(self).wf(),
            epoch_deltas(*old(self), *final(self), 1, 1, 0, 0),
            final(self)@ == old(self)@,
            final(self).selected_range.start == old(self)@.len(),
    {
        let n = self.content.len_chars();
        self.move_to(n);
    }

    /// Extends the selection to the start of the document.
    pub fn select_doc_start(&mut self)
        requires
            old(self).wf(),
            old(self).blink_manager.epoch < usize::MAX - 2,
            old(self).scroll_manager.calc_epoch < usize::MAX - 2,
            old(self).scroll_manager.show_epoch < usize::MAX - 2,
            old(self).content_epoch < usize::MAX - 2,
        ensures
            final(self).wf(),
            epoch_deltas(*old(self), *final(self), 0, 1, 0, 0),
            final(self)@ == old(self)@,
            ({
                let (range, rev) = select_to_spec(
                    old(self).selected_range,
                    old(self).selection_reversed,
                    0,
                );
                final(self).selected_range == range && final(self).selection_reversed == rev
            }),
    {
        self.select_to(0);
    }

    /// Extends the selection to the end of the document.
    pub fn select_doc_end(&mut self)
        requires
            old(self).wf(),
            old(self).blink_manager.epoch < usize::MAX - 2,
            old(self).scroll_manager.calc_epoch < usize::MAX - 2,
            old(self).scroll_manager.show_epoch < usize::MAX - 2,
            old(self).content_epoch < usize::MAX - 2,
        ensures
            final(self).wf(),
            epoch_deltas(*old(self), *final(self), 0, 1, 0, 0),
            final(self)@ == old(self)@,
            ({
                let (range, rev) = select_to_spec(
                    old(self).selected_range,
                    old(self).selection_reversed,
                    old(self)@.len() as usize,
                );
                final(self).selected_range == range && final(self).selection_reversed == rev
            }),
    {
        let n = self.content.len_chars();
        self.select_to(n);
    }

    /// Moves the selection to the given byte range (as search
    /// matches are byte ranges), converting to character offsets.
    pub fn update_selected_range_bytes(&mut self, start_byte: usize, end_byte: usize)
        requires
            old(self).wf(),
            old(self).blink_manager.epoch < usize::MAX,
            old(self).scroll_manager.calc_epoch < usize::MAX,
            start_byte <= end_byte <= vstd::utf8::encode_utf8(old(self)@).len(),
        ensures
            final(self).wf(),
            epoch_deltas(*old(self), *final(self), 1, 1, 0, 0),
            final(self)@ == old(self)@,
            final(self).marked_range is None,
            final(self).highlights == old(self).highlights,
            byte_selection(old(self)@, final(self).selected_range, start_byte as int, end_byte as int),
            final(self).selected_range.start <= final(self).selected_range.end,
            final(self).selection_reversed == old(self).selection_reversed,
            final(self).blink_manager.show && final(self).blink_manager.paused,
            final(self).blink_manager.epoch == old(self).blink_manager.epoch + 1,
            final(self).scroll_manager.calc_epoch == old(self).scroll_manager.calc_epoch + 1,
            final(self).pending_scroll == Some(
                (final(self).scroll_manager.calc_epoch, final(self).selected_range.start),
            ),
    {
        let cs = self.content.byte_to_char(start_byte);
        let ce = self.content.byte_to_char(end_byte);
        proof {
            assert(self@.take(self@.len() as int) =~= self@);
            if ce < cs {
                crate::text::lemma_byte_offset_monotone(self@, ce + 1, cs as int);
            }
        }
        self.update_selected_range(CharRange::new(cs, ce));
    }

    /// The text of a character range, for the host's input protocol.
    pub fn text_for_range(&self, start: usize, end: usize) -> (r: Option<String>)
        ensures
            start <= end <= self@.len() ==> r is Some && r.unwrap()@ == self@.subrange(
                start as int,
                end as int,
            ),
            !(start <= end <= self@.len()) ==> r is None,
    {
        let len = self.content.len_chars();
        if start <= end && end <= len {
            Some(self.content.slice_string(start, end))
        } else {
            None
        }
    }

    /// The selected range and its direction, for the host's input
    /// protocol.
    pub fn selected_text_range(&self) -> (r: (CharRange, bool))
        ensures
            r.0 == self.selected_range,
            r.1 == self.selection_reversed,
    {
        (self.selected_range, self.selection_reversed)
    }

    /// The marked (composition) range, if any.
    pub fn marked_text_range(&self) -> (r: Option<CharRange>)
        ensures
            r == self.marked_range,
    {
        self.marked_range
    }

    /// Drops the marked range without changing the text.
    pub fn unmark_text(&mut self)
        ensures
            *final(self) == (TextInput { marked_range: None, ..*old(self) }),
    {
        self.marked_range = None;
    }

    /// Composition (marked-text) input: with a marked range
    /// pending, deletes it; otherwise replaces the given range (or
    /// the selection) by the composition text, marks the inserted
    /// text, and places the selection where the input method asked,
    /// relative to the insertion point.
    pub fn replace_and_mark_text_in_range(
        &mut self,
        range_given: Option<CharRange>,
        new_text: &str,
        new_selected: Option<CharRange>,
    )
        requires
            old(self).wf(),
            old(self).blink_manager.epoch < usize::MAX - 2,
            old(self).scroll_manager.calc_epoch < usize::MAX - 2,
            old(self).scroll_manager.show_epoch < usize::MAX - 2,
            old(self).content_epoch < usize::MAX - 2,
            range_given is Some ==> range_given.unwrap().wf_for(old(self)@.len() as int),
            old(self)@.len() + new_text@.len() <= usize::MAX,
        ensures
            final(self).wf(),
            epoch_deltas(*old(self), *final(self), 1, 1, 0, 2),
            old(self).marked_range is None ==> ({
                let r = if range_given is Some {
                    range_given.unwrap()
                } else {
                    old(self).selected_range
                };
                &&& final(self)@ == insert_text(
                    remove_text(old(self)@, r.start as int, r.end - r.start),
                    r.start as int,
                    new_text@,
                )
                &&& final(self).marked_range == Some(
                    CharRange { start: r.start, end: (r.start + new_text@.len()) as usize },
                )
            }),
            old(self).marked_range is Some ==> ({
                let m = old(self).marked_range.unwrap();
                &&& final(self)@ == remove_text(old(self)@, m.start as int, m.end - m.start)
                &&& final(self).marked_range is None
                &&& final(self).selected_range == (CharRange { start: m.start, end: m.start })
            }),
    {
        proof {
            reveal_strlit("");
        }
        let marked = self.marked_range;
        if let Some(m) = marked {
            self.replace_text_in_range(Some(m), "");
            return ;
        }

        let range = match range_given {
            Some(r) => r,
            None => self.selected_range,
        };
        self.replace_text_in_range(Some(range), new_text);
        let l = new_text.unicode_len();
        self.marked_range = Some(CharRange::new(range.start, range.start + l));

        if let Some(ns) = new_selected {
            let len = self.content.len_chars();
            let s0 = if range.start <= usize::MAX - ns.start {
                range.start + ns.start
            } else {
                len
            };
            let e0 = if range.start <= usize::MAX - ns.end {
                range.start + ns.end
            } else {
                len
            };
            let s1 = if s0 <= len {
                s0
            } else {
                len
            };
            let e1 = if e0 <= len {
                e0
            } else {
                len
            };
            if s1 <= e1 {
                self.selected_range = CharRange::new(s1, e1);
            }
        }
    }

    /// Cursor position for the status line: zero-based line index
    /// and character offset within that line, plus the selection's
    /// size in characters and in lines (zero when collapsed).
    pub fn selection_stats(&self) -> (r: (usize, usize, usize, usize))
        requires
            self.wf(),
        ensures
            r.0 == crate::text::newlines_before(self@, self.cursor_offset_spec() as int),
            r.1 == self.cursor_offset_spec() - crate::text::line_start_at(self@, r.0 as int),
            r.2 == self.selected_range.end - self.selected_range.start,
            ({
                let sel = self.selected_range;
                r.3 == crate::text::newlines_before(self@, sel.end as int)
                    - crate::text::newlines_before(self@, sel.start as int)
            }),
    {
        let cursor = self.cursor_offset();
        let line_idx = self.content.char_to_line(cursor);
        let line_start = self.content.line_to_char(line_idx);
        proof {
            crate::text::lemma_line_start_le(self@, line_idx as int, line_start as int, cursor as int);
            crate::text::lemma_newlines_before_monotone(self@, line_start as int, cursor as int);
            let ks = crate::text::line_start_at(self@, line_idx as int);
            assert(crate::text::is_line_start(self@, line_idx as int, ks));
            crate::text::lemma_line_start_unique(self@, line_idx as int, ks, line_start as int);
        }
        let col = if cursor >= line_start {
            cursor - line_start
        } else {
            0
        };
        let sel_chars = self.selected_range.end - self.selected_range.start;
        let start_line = self.content.char_to_line(self.selected_range.start);
        let end_line = self.content.char_to_line(self.selected_range.end);
        proof {
            crate::text::lemma_newlines_before_monotone(
                self@,
                self.selected_range.start as int,
                self.selected_range.end as int,
            );
        }
        let sel_lines = end_line - start_line;
        (line_idx, col, sel_chars, sel_lines)
    }
}



/// Pixel position of a char offset under a stored layout: the
/// column within its visual row and the row's top, or `None` when
/// the layout no longer matches the content. Mirrors the layout
/// queries it is assembled from.
pub open spec fn layout_pos_spec(s: Seq<char>, layout: Lines, position: int) -> Option<(int, int)> {
    let li = crate::text::newlines_before(s, position);
    let lb = crate::text::byte_offset_of(s, crate::text::line_start_at(s, li));
    let cb = crate::text::byte_offset_of(s, position);
    if li >= layout.lines@.len() || cb < lb {
        None
    } else {
        let l = layout.lines@[li];
        let c = crate::layout::char_idx_for_byte_from(l, cb - lb, 0);
        let k = crate::layout::row_of(l, c);
        Some(
            (
                crate::layout::sum_widths(l.widths@, l.row_starts@[k] as int, c),
                crate::layout::height_before(layout.lines@, li, layout.line_height as int) + k
                    * layout.line_height,
            ),
        )
    }
}

/// Char offset of a layout hit (line index plus line-local byte),
/// or `None` when the hit lies outside the current content.
pub open spec fn hit_char_spec(s: Seq<char>, li: int, b: int) -> Option<int> {
    if li > crate::text::newline_count(s) {
        None
    } else {
        let lb = crate::text::byte_offset_of(s, crate::text::line_start_at(s, li));
        if b > crate::text::byte_offset_of(s, s.len() as int) - lb {
            None
        } else {
            Some(crate::text::char_at_byte(s, lb + b))
        }
    }
}

impl TextInput {
    /// Where the visual line holding `position` ends: the next wrap
    /// boundary under the stored layout, or the logical line's end.
    pub open spec fn end_of_line_spec(&self, position: int) -> int {
        let s = self@;
        let li = crate::text::newlines_before(s, position);
        let fallback = crate::text::line_end_at(s, li);
        match self.last_layout {
            None => fallback,
            Some(layout) => {
                let lb = crate::text::byte_offset_of(s, crate::text::line_start_at(s, li));
                let pb = crate::text::byte_offset_of(s, position);
                if pb >= lb && li < layout.lines@.len() {
                    let e = crate::layout::wrap_end_from(layout.lines@[li], pb - lb, 1);
                    if e <= crate::text::byte_offset_of(s, s.len() as int) - lb {
                        crate::text::char_at_byte(s, lb + e)
                    } else {
                        fallback
                    }
                } else {
                    fallback
                }
            },
        }
    }

    /// Where the cursor's visual line starts: the column-zero hit of
    /// its row, or the logical line start.
    pub open spec fn start_of_line_spec(&self) -> int {
        let s = self@;
        let cursor = self.cursor_offset_spec() as int;
        let fallback = crate::text::line_start_at(s, crate::text::newlines_before(s, cursor));
        match self.last_layout {
            None => fallback,
            Some(layout) => match layout_pos_spec(s, layout, cursor) {
                None => fallback,
                Some((x, y)) => match crate::layout::hit_from(
                    layout.lines@,
                    layout.line_height as int,
                    0,
                    0,
                    y,
                ) {
                    Some((li, b)) => match hit_char_spec(s, li, b) {
                        Some(c) => c,
                        None => fallback,
                    },
                    None => fallback,
                },
            },
        }
    }

    /// The char offset one visual line above the cursor, when a row
    /// exists above it.
    pub open spec fn up_target_spec(&self) -> Option<int> {
        let s = self@;
        let cursor = self.cursor_offset_spec() as int;
        match self.last_layout {
            None => None,
            Some(layout) => match layout_pos_spec(s, layout, cursor) {
                None => None,
                Some((x, y)) => if y < layout.line_height {
                    None
                } else {
                    match crate::layout::hit_from(
                        layout.lines@,
                        layout.line_height as int,
                        0,
                        x,
                        y - layout.line_height,
                    ) {
                        Some((li, b)) => hit_char_spec(s, li, b),
                        None => {
                            let ls = crate::text::line_start_at(
                                s,
                                crate::text::newlines_before(s, cursor),
                            );
                            Some(
                                if ls > 0 {
                                    ls - 1
                                } else {
                                    0
                                },
                            )
                        },
                    }
                },
            },
        }
    }

    /// Where a downward move lands when no row hit exists below the
    /// cursor: the end of the cursor's wrapped line when the cursor
    /// sits above it, else the end of the next logical line.
    pub open spec fn down_fallback_spec(&self, cursor: int, y: int) -> Option<int> {
        let s = self@;
        let layout = self.last_layout.unwrap();
        let eol = self.end_of_line_spec(cursor);
        let cont = {
            let cl = crate::text::newlines_before(s, cursor);
            if cl < crate::text::newline_count(s) {
                Some(self.end_of_line_spec(crate::text::line_start_at(s, cl + 1)))
            } else {
                None
            }
        };
        match layout_pos_spec(s, layout, eol) {
            Some((xe, ye)) => if y < ye {
                Some(eol)
            } else {
                cont
            },
            None => cont,
        }
    }

    /// The char offset one visual line below the cursor, when one
    /// exists.
    pub open spec fn down_target_spec(&self) -> Option<int> {
        let s = self@;
        let cursor = self.cursor_offset_spec() as int;
        match self.last_layout {
            None => None,
            Some(layout) => match layout_pos_spec(s, layout, cursor) {
                None => None,
                Some((x, y)) => match crate::layout::hit_from(
                    layout.lines@,
                    layout.line_height as int,
                    0,
                    x,
                    y + layout.line_height,
                ) {
                    Some((li, b)) => match hit_char_spec(s, li, b) {
                        Some(c) => Some(c),
                        None => self.down_fallback_spec(cursor, y),
                    },
                    None => self.down_fallback_spec(cursor, y),
                },
            },
        }
    }
}



/// How a scroll recomputation relates the new scroll state to the
/// session it ran against: a stale token or unusable stored state
/// leaves the controller untouched; otherwise the offsets obey the
/// margin-band clamps for the revealed offset's pixel position.
pub open spec fn scroll_reveal_ok(
    pre: TextInput,
    post: ScrollManager,
    epoch: usize,
    offset: int,
) -> bool {
    let s = pre@;
    let li = crate::text::newlines_before(s, offset);
    let lb = crate::text::byte_offset_of(s, crate::text::line_start_at(s, li));
    let cb = crate::text::byte_offset_of(s, offset);
    let applies = pre.last_bounds is Some && pre.last_bounds.unwrap().wf() && pre.last_layout
        is Some && cb >= lb && li < pre.last_layout.unwrap().lines@.len();
    &&& (!applies ==> post == pre.scroll_manager)
    &&& (applies && epoch != pre.scroll_manager.calc_epoch ==> post == pre.scroll_manager)
    &&& (applies && epoch == pre.scroll_manager.calc_epoch ==> ({
        let bounds = pre.last_bounds.unwrap();
        let layout = pre.last_layout.unwrap();
        let l = layout.lines@[li];
        let c = crate::layout::char_idx_for_byte_from(l, cb - lb, 0);
        let k = crate::layout::row_of(l, c);
        let cursor_x = crate::layout::sum_widths(l.widths@, l.row_starts@[k] as int, c);
        let cursor_y = crate::layout::height_before(
            layout.lines@,
            li,
            layout.line_height as int,
        ) + k * layout.line_height;
        &&& post.offset.x == crate::scroll::offset_x_after_move(
            pre.scroll_manager.offset.x as int,
            cursor_x,
            bounds,
            32,
        )
        &&& post.offset.y == crate::scroll::offset_y_after_move(
            pre.scroll_manager.offset.y as int,
            cursor_y,
            bounds,
            2,
            layout.line_height as int,
        )
        &&& post.calc_epoch == pre.scroll_manager.calc_epoch
    }))
}

impl TextInput {
    /// Where the line-band stage of a mouse lookup lands: the end
    /// of the visual line whose vertical band holds the point, or
    /// offset 0 when no band does.
    pub open spec fn mouse_line_stage_spec(&self, layout: Lines, x: int, y: int) -> int {
        let s = self@;
        match crate::layout::line_for_y_from(layout.lines@, layout.line_height as int, 0, y) {
            Some(li) => if li <= crate::text::newline_count(s) {
                self.end_of_line_spec(crate::text::line_start_at(s, li))
            } else {
                0
            },
            None => 0,
        }
    }

    /// The char offset under a pointer position: 0 above or before
    /// the text, the end of the document below it, the hit
    /// character within it, mirroring the guarded lookup.
    pub open spec fn mouse_index_spec(&self, position: PointPx) -> int {
        let s = self@;
        let len = s.len() as int;
        if len == 0 {
            0
        } else if !(self.last_bounds is Some && self.last_offset is Some
            && self.last_layout is Some) {
            0
        } else {
            let bounds = self.last_bounds.unwrap();
            let offset = self.last_offset.unwrap();
            let layout = self.last_layout.unwrap();
            if !bounds.wf() || !position.small() {
                0
            } else if position.y < bounds.origin.y {
                0
            } else if position.y > bounds.origin.y + bounds.height {
                len
            } else {
                let off_y_mag: int = if offset.y <= 0 && offset.y >= -0x2000_0000 {
                    -(offset.y as int)
                } else {
                    0
                };
                let off_x: int = if -0x2000_0000 <= offset.x && offset.x <= 0x2000_0000 {
                    offset.x as int
                } else {
                    0
                };
                let x = position.x - off_x - bounds.origin.x;
                let y = position.y + off_y_mag - bounds.origin.y;
                if y > crate::layout::height_before(
                    layout.lines@,
                    layout.lines@.len() as int,
                    layout.line_height as int,
                ) {
                    len
                } else {
                    match crate::layout::hit_from(
                        layout.lines@,
                        layout.line_height as int,
                        0,
                        x,
                        y,
                    ) {
                        Some((li, b)) => match hit_char_spec(s, li, b) {
                            Some(c) => c,
                            None => self.mouse_line_stage_spec(layout, x, y),
                        },
                        None => self.mouse_line_stage_spec(layout, x, y),
                    }
                }
            }
        }
    }
}

impl TextInput {
    /// Stores what the paint pass computed, so movement and mouse
    /// queries can use it until the next paint.
    pub fn store_layout(&mut self, layout: Lines, bounds: RectPx, offset: PointPx)
        requires
            old(self).wf(),
            layout.wf(),
        ensures
            final(self).wf(),
            final(self)@ == old(self)@,
            final(self).last_layout == Some(layout),
            final(self).last_bounds == Some(bounds),
            final(self).last_offset == Some(offset),
            final(self).selected_range == old(self).selected_range,
            final(self).undo_stack_spec() == old(self).undo_stack_spec(),
            final(self).redo_stack_spec() == old(self).redo_stack_spec(),
    {
        self.last_layout = Some(layout);
        self.last_bounds = Some(bounds);
        self.last_offset = Some(offset);
    }

    /// Pixel position of a char offset in the stored layout, or
    /// `None` without a layout or when the stored layout no longer
    /// matches the content.
    pub fn position_from_layout(&self, position: usize) -> (r: Option<(u64, u64)>)
        requires
            self.wf(),
            position <= self@.len(),
        ensures
            self.last_layout is None ==> r is None,
            r is Some ==> r.unwrap().0 <= 0x4000_0000 && r.unwrap().1 <= 0x1_8000_0000,
            self.last_layout is Some ==> ({
                let p = layout_pos_spec(self@, self.last_layout.unwrap(), position as int);
                &&& (r is Some <==> p is Some)
                &&& (r is Some ==> r.unwrap().0 as int == p.unwrap().0 && r.unwrap().1 as int
                    == p.unwrap().1)
            }),
    {
        let layout = match &self.last_layout {
            None => {
                return None;
            },
            Some(l) => l,
        };

        let line_idx = self.content.char_to_line(position);
        let line_byte_idx = self.content.line_to_byte(line_idx);
        let cursor_byte_idx = self.content.char_to_byte(position);

        if line_idx >= layout.lines.len() || cursor_byte_idx < line_byte_idx {
            return None;
        }
        let p = layout.position_for_byte_idx_in_line(cursor_byte_idx - line_byte_idx, line_idx);
        proof {
            let l = layout.lines@[line_idx as int];
            assert(l.wf(layout.wrap_width));
            let c = crate::layout::char_idx_for_byte_from(
                l,
                (cursor_byte_idx - line_byte_idx) as int,
                0,
            );
            crate::layout::lemma_char_idx_for_byte_bounds(
                l,
                (cursor_byte_idx - line_byte_idx) as int,
                0,
            );
            crate::layout::lemma_row_starts_props(l, layout.wrap_width);
            let k = crate::layout::row_of(l, c);
            crate::layout::lemma_row_of_from_props(l, c, 0);
            crate::layout::lemma_sum_widths_bound(l.widths@, l.row_starts@[k] as int, c);
            vstd::arithmetic::mul::lemma_mul_inequality(
                c - l.row_starts@[k] as int,
                crate::layout::MAX_LAYOUT_CHARS as int,
                crate::layout::MAX_ADVANCE as int,
            );
            layout.lemma_height_fits(line_idx as int);
            crate::layout::lemma_line_rows_bound(l, layout.wrap_width);
            vstd::arithmetic::mul::lemma_mul_inequality(
                k,
                (crate::layout::MAX_LAYOUT_CHARS as int) + 1,
                layout.line_height as int,
            );
            vstd::arithmetic::mul::lemma_mul_inequality(
                layout.line_height as int,
                crate::layout::MAX_ADVANCE as int,
                (crate::layout::MAX_LAYOUT_CHARS as int) + 1,
            );
        }
        Some(p)
    }

    /// The char offset one visual line above the cursor: the same
    /// pixel column projected onto the previous visual row, the
    /// previous boundary of the logical line start when there is no
    /// row above, or `None` without a layout or on the first row.
    pub fn position_for_up(&self) -> (r: Option<usize>)
        requires
            self.wf(),
        ensures
            r is Some ==> r.unwrap() <= self@.len(),
            ({
                let t = self.up_target_spec();
                &&& (r is Some <==> t is Some)
                &&& (r is Some ==> r.unwrap() as int == t.unwrap())
            }),
    {
        let cursor = self.cursor_offset();
        let cursor_pos = match self.position_from_layout(cursor) {
            None => {
                return None;
            },
            Some(p) => p,
        };
        let layout = match &self.last_layout {
            None => {
                return None;
            },
            Some(l) => l,
        };

        if cursor_pos.1 < layout.line_height {
            return None;
        }
        let y = cursor_pos.0;
        let prev_y = cursor_pos.1 - layout.line_height;

        if let Some((line_idx, byte_in_line)) = layout.byte_index_for_position(
            y as i64,
            prev_y as i64,
        ) {
            self.char_for_layout_hit(line_idx, byte_in_line)
        } else {
            let line_idx = self.content.char_to_line(cursor);
            let line_start = self.content.line_to_char(line_idx);
            Some(self.previous_boundary(line_start))
        }
    }

    /// The char offset one visual line below the cursor: the same
    /// pixel column on the next visual row, the end of a wrapped
    /// line, the end of the next logical line, or `None` at the end
    /// of the document or without a layout.
    pub fn position_for_down(&self) -> (r: Option<usize>)
        requires
            self.wf(),
        ensures
            r is Some ==> r.unwrap() <= self@.len(),
            ({
                let t = self.down_target_spec();
                &&& (r is Some <==> t is Some)
                &&& (r is Some ==> r.unwrap() as int == t.unwrap())
            }),
    {
        let cursor = self.cursor_offset();
        let cursor_pos = match self.position_from_layout(cursor) {
            None => {
                return None;
            },
            Some(p) => p,
        };
        let layout = match &self.last_layout {
            None => {
                return None;
            },
            Some(l) => l,
        };

        let next_y = cursor_pos.1 + layout.line_height;
        if let Some((line_idx, byte_in_line)) = layout.byte_index_for_position(
            cursor_pos.0 as i64,
            next_y as i64,
        ) {
            if let Some(c) = self.char_for_layout_hit(line_idx, byte_in_line) {
                return Some(c);
            }
        }

        let end_of_line = self.position_for_end_of_line(cursor);
        if let Some(end_pos) = self.position_from_layout(end_of_line) {
            if cursor_pos.1 < end_pos.1 {
                return Some(end_of_line);
            }
        }

        let current_line = self.content.char_to_line(cursor);
        let total_breaks = self.content.len_lines() - 1;
        if current_line < total_breaks {
            let start_of_next = self.content.line_to_char(current_line + 1);
            return Some(self.position_for_end_of_line(start_of_next));
        }

        None
    }

    /// Converts a layout hit (line index and line-local byte) to a
    /// char offset, or `None` when the stored layout no longer
    /// matches the content.
    fn char_for_layout_hit(&self, line_idx: usize, byte_in_line: usize) -> (r: Option<usize>)
        requires
            self.wf(),
        ensures
            r is Some ==> r.unwrap() <= self@.len(),
            ({
                let hc = hit_char_spec(self@, line_idx as int, byte_in_line as int);
                &&& (r is Some <==> hc is Some)
                &&& (r is Some ==> r.unwrap() as int == hc.unwrap())
            }),
    {
        let breaks = self.content.len_lines() - 1;
        if line_idx > breaks {
            return None;
        }
        let line_byte = self.content.line_to_byte(line_idx);
        let total = self.content.len_bytes();
        proof {
            let s = self@;
            let k = choose|k: int|
                crate::text::is_line_start(s, line_idx as int, k) && line_byte
                    == crate::text::byte_offset_of(s, k);
            crate::text::lemma_byte_offset_monotone(s, k, s.len() as int);
            assert(s.take(s.len() as int) =~= s);
        }
        if byte_in_line > total - line_byte {
            return None;
        }
        Some(self.content.byte_to_char(line_byte + byte_in_line))
    }

    /// The char offset where the cursor's visual line starts: the
    /// hit at pixel column zero of the cursor's row, or the logical
    /// line start without a layout.
    pub fn position_for_start_of_line(&self) -> (r: usize)
        requires
            self.wf(),
        ensures
            r <= self@.len(),
            r as int == self.start_of_line_spec(),
    {
        let cursor = self.cursor_offset();
        if let Some(cursor_pos) = self.position_from_layout(cursor) {
            if let Some(layout) = &self.last_layout {
                if let Some((line_idx, byte_in_line)) = layout.byte_index_for_position(
                    0,
                    cursor_pos.1 as i64,
                ) {
                    if let Some(c) = self.char_for_layout_hit(line_idx, byte_in_line) {
                        return c;
                    }
                }
            }
        }

        let line_idx = self.content.char_to_line(cursor);
        self.content.line_to_char(line_idx)
    }

    /// The char offset where the visual line holding `position`
    /// ends: the next wrap boundary of its logical line, or the
    /// logical line's end (before its line feed) without a layout.
    pub fn position_for_end_of_line(&self, position: usize) -> (r: usize)
        requires
            self.wf(),
            position <= self@.len(),
        ensures
            r <= self@.len(),
            r as int == self.end_of_line_spec(position as int),
            self.last_layout is None ==> crate::text::newlines_before(self@, r as int)
                == crate::text::newlines_before(self@, position as int) && (r < self@.len()
                ==> self@[r as int] == '\n'),
    {
        proof {
            assert(self@.take(self@.len() as int) =~= self@);
        }
        let line_idx = self.content.char_to_line(position);
        if let Some(layout) = &self.last_layout {
            let line_byte_idx = self.content.line_to_byte(line_idx);
            let pos_byte = self.content.char_to_byte(position);
            if pos_byte >= line_byte_idx {
                if let Some(end_byte) = layout.wrapped_line_end_idx(
                    line_idx,
                    pos_byte - line_byte_idx,
                ) {
                    let total = self.content.len_bytes();
                    proof {
                        let s = self@;
                        let k = choose|k: int|
                            crate::text::is_line_start(s, line_idx as int, k) && line_byte_idx
                                == crate::text::byte_offset_of(s, k);
                        crate::text::lemma_byte_offset_monotone(s, k, s.len() as int);
                        assert(s.take(s.len() as int) =~= s);
                        let ll = layout.lines@[line_idx as int];
                        assert(ll.wf(layout.wrap_width));
                        crate::layout::lemma_row_starts_props(ll, layout.wrap_width);
                        crate::layout::lemma_wrap_end_bounds(
                            ll,
                            pos_byte - line_byte_idx,
                            1,
                            layout.wrap_width,
                        );
                    }
                    if end_byte <= total - line_byte_idx {
                        if let Some(c) = self.char_for_layout_hit_end(line_byte_idx + end_byte) {
                            return c;
                        }
                    }
                }
            }
        }

        self.content.line_end_char(line_idx)
    }

    /// Byte-to-char conversion guarded against a stale layout.
    fn char_for_layout_hit_end(&self, byte_idx: usize) -> (r: Option<usize>)
        requires
            self.wf(),
        ensures
            r is Some ==> r.unwrap() <= self@.len(),
            byte_idx <= vstd::utf8::encode_utf8(self@).len() ==> r is Some && r.unwrap() as int
                == crate::text::char_at_byte(self@, byte_idx as int),
            byte_idx > vstd::utf8::encode_utf8(self@).len() ==> r is None,
    {
        let total = self.content.len_bytes();
        if byte_idx > total {
            return None;
        }
        Some(self.content.byte_to_char(byte_idx))
    }

    /// Up arrow: one visual line up, if there is one.
    pub fn up(&mut self)
        requires
            old(self).wf(),
            old(self).blink_manager.epoch < usize::MAX - 2,
            old(self).scroll_manager.calc_epoch < usize::MAX - 2,
            old(self).scroll_manager.show_epoch < usize::MAX - 2,
            old(self).content_epoch < usize::MAX - 2,
        ensures
            final(self).wf(),
            epoch_deltas(*old(self), *final(self), 1, 1, 0, 0),
            final(self)@ == old(self)@,
            old(self).up_target_spec() is None ==> *final(self) == *old(self),
            old(self).up_target_spec() is Some ==> final(self).selected_range == (CharRange {
                start: old(self).up_target_spec().unwrap() as usize,
                end: old(self).up_target_spec().unwrap() as usize,
            }),
    {
        if let Some(pos) = self.position_for_up() {
            self.move_to(pos);
        }
    }

    /// Down arrow: one visual line down, if there is one.
    pub fn down(&mut self)
        requires
            old(self).wf(),
            old(self).blink_manager.epoch < usize::MAX - 2,
            old(self).scroll_manager.calc_epoch < usize::MAX - 2,
            old(self).scroll_manager.show_epoch < usize::MAX - 2,
            old(self).content_epoch < usize::MAX - 2,
        ensures
            final(self).wf(),
            epoch_deltas(*old(self), *final(self), 1, 1, 0, 0),
            final(self)@ == old(self)@,
            old(self).down_target_spec() is None ==> *final(self) == *old(self),
            old(self).down_target_spec() is Some ==> final(self).selected_range == (CharRange {
                start: old(self).down_target_spec().unwrap() as usize,
                end: old(self).down_target_spec().unwrap() as usize,
            }),
    {
        if let Some(pos) = self.position_for_down() {
            self.move_to(pos);
        }
    }

    /// Extends the selection one visual line up.
    pub fn select_up(&mut self)
        requires
            old(self).wf(),
            old(self).blink_manager.epoch < usize::MAX - 2,
            old(self).scroll_manager.calc_epoch < usize::MAX - 2,
            old(self).scroll_manager.show_epoch < usize::MAX - 2,
            old(self).content_epoch < usize::MAX - 2,
        ensures
            final(self).wf(),
            epoch_deltas(*old(self), *final(self), 0, 1, 0, 0),
            final(self)@ == old(self)@,
            old(self).up_target_spec() is None ==> *final(self) == *old(self),
            old(self).up_target_spec() is Some ==> ({
                let (range, rev) = select_to_spec(
                    old(self).selected_range,
                    old(self).selection_reversed,
                    old(self).up_target_spec().unwrap() as usize,
                );
                final(self).selected_range == range && final(self).selection_reversed == rev
            }),
    {
        if let Some(pos) = self.position_for_up() {
            self.select_to(pos);
        }
    }

    /// Extends the selection one visual line down.
    pub fn select_down(&mut self)
        requires
            old(self).wf(),
            old(self).blink_manager.epoch < usize::MAX - 2,
            old(self).scroll_manager.calc_epoch < usize::MAX - 2,
            old(self).scroll_manager.show_epoch < usize::MAX - 2,
            old(self).content_epoch < usize::MAX - 2,
        ensures
            final(self).wf(),
            epoch_deltas(*old(self), *final(self), 0, 1, 0, 0),
            final(self)@ == old(self)@,
            old(self).down_target_spec() is None ==> *final(self) == *old(self),
            old(self).down_target_spec() is Some ==> ({
                let (range, rev) = select_to_spec(
                    old(self).selected_range,
                    old(self).selection_reversed,
                    old(self).down_target_spec().unwrap() as usize,
                );
                final(self).selected_range == range && final(self).selection_reversed == rev
            }),
    {
        if let Some(pos) = self.position_for_down() {
            self.select_to(pos);
        }
    }

    /// Moves the cursor to the start of the cursor's visual line.
    pub fn move_to_line_start(&mut self)
        requires
            old(self).wf(),
            old(self).blink_manager.epoch < usize::MAX - 2,
            old(self).scroll_manager.calc_epoch < usize::MAX - 2,
            old(self).scroll_manager.show_epoch < usize::MAX - 2,
            old(self).content_epoch < usize::MAX - 2,
        ensures
            final(self).wf(),
            epoch_deltas(*old(self), *final(self), 1, 1, 0, 0),
            final(self)@ == old(self)@,
            final(self).selected_range.is_empty(),
            final(self).selected_range.start as int == old(self).start_of_line_spec(),
    {
        let p = self.position_for_start_of_line();
        self.move_to(p);
    }

    /// Moves the cursor to the end of the cursor's visual line.
    pub fn move_to_line_end(&mut self)
        requires
            old(self).wf(),
            old(self).blink_manager.epoch < usize::MAX - 2,
            old(self).scroll_manager.calc_epoch < usize::MAX - 2,
            old(self).scroll_manager.show_epoch < usize::MAX - 2,
            old(self).content_epoch < usize::MAX - 2,
        ensures
            final(self).wf(),
            epoch_deltas(*old(self), *final(self), 1, 1, 0, 0),
            final(self)@ == old(self)@,
            final(self).selected_range.is_empty(),
            final(self).selected_range.start as int == old(self).end_of_line_spec(
                old(self).cursor_offset_spec() as int,
            ),
    {
        let c = self.cursor_offset();
        let p = self.position_for_end_of_line(c);
        self.move_to(p);
    }

    /// Extends the selection to the start of the visual line.
    pub fn select_line_start(&mut self)
        requires
            old(self).wf(),
            old(self).blink_manager.epoch < usize::MAX - 2,
            old(self).scroll_manager.calc_epoch < usize::MAX - 2,
            old(self).scroll_manager.show_epoch < usize::MAX - 2,
            old(self).content_epoch < usize::MAX - 2,
        ensures
            final(self).wf(),
            epoch_deltas(*old(self), *final(self), 0, 1, 0, 0),
            final(self)@ == old(self)@,
            ({
                let (range, rev) = select_to_spec(
                    old(self).selected_range,
                    old(self).selection_reversed,
                    old(self).start_of_line_spec() as usize,
                );
                final(self).selected_range == range && final(self).selection_reversed == rev
            }),
    {
        let p = self.position_for_start_of_line();
        self.select_to(p);
    }

    /// Extends the selection to the end of the visual line.
    pub fn select_line_end(&mut self)
        requires
            old(self).wf(),
            old(self).blink_manager.epoch < usize::MAX - 2,
            old(self).scroll_manager.calc_epoch < usize::MAX - 2,
            old(self).scroll_manager.show_epoch < usize::MAX - 2,
            old(self).content_epoch < usize::MAX - 2,
        ensures
            final(self).wf(),
            epoch_deltas(*old(self), *final(self), 0, 1, 0, 0),
            final(self)@ == old(self)@,
            ({
                let (range, rev) = select_to_spec(
                    old(self).selected_range,
                    old(self).selection_reversed,
                    old(self).end_of_line_spec(old(self).cursor_offset_spec() as int) as usize,
                );
                final(self).selected_range == range && final(self).selection_reversed == rev
            }),
    {
        let c = self.cursor_offset();
        let p = self.position_for_end_of_line(c);
        self.select_to(p);
    }

    /// The char offset under a pointer position, for clicks and
    /// drags: 0 above or before the text, the end of the document
    /// below it, the hit character within it.
    pub fn index_for_mouse_position(&self, position: PointPx) -> (r: usize)
        requires
            self.wf(),
        ensures
            r <= self@.len(),
            self@.len() == 0 ==> r == 0,
            (self@.len() > 0 && self.last_bounds is Some && self.last_layout is Some
                && self.last_offset is Some && self.last_bounds.unwrap().wf() && position.small()
                && position.y < self.last_bounds.unwrap().origin.y) ==> r == 0,
            (self@.len() > 0 && self.last_bounds is Some && self.last_layout is Some
                && self.last_offset is Some && self.last_bounds.unwrap().wf() && position.small()
                && position.y > self.last_bounds.unwrap().spec_bottom()) ==> r == self@.len(),
            r as int == self.mouse_index_spec(position),
    {
        let len = self.content.len_chars();
        if len == 0 {
            return 0;
        }

        let (bounds, offset) = match (&self.last_bounds, &self.last_offset) {
            (Some(b), Some(o)) => (*b, *o),
            _ => {
                return 0;
            },
        };
        let layout = match &self.last_layout {
            None => {
                return 0;
            },
            Some(l) => l,
        };

        if !bounds.check_wf() || !position.check_small() {
            return 0;
        }
        if position.y < bounds.origin.y {
            return 0;
        }
        if position.y > bounds.origin.y + bounds.height {
            return len;
        }

        let off_y_mag = if offset.y <= 0 && offset.y >= -0x2000_0000 {
            -offset.y
        } else {
            0
        };
        let off_x = if -0x2000_0000 <= offset.x && offset.x <= 0x2000_0000 {
            offset.x
        } else {
            0
        };
        let x = position.x - off_x - bounds.origin.x;
        let y = position.y + off_y_mag - bounds.origin.y;

        proof {
            layout.lemma_height_fits(layout.lines@.len() as int);
        }
        let content_height = layout.height();
        if y > content_height as i64 {
            return len;
        }

        if let Some((line_idx, byte_in_line)) = layout.byte_index_for_position(x, y) {
            if let Some(c) = self.char_for_layout_hit(line_idx, byte_in_line) {
                return c;
            }
        }

        if let Some(line_idx) = layout.line_idx_for_y(y) {
            let breaks = self.content.len_lines() - 1;
            if line_idx <= breaks {
                let line_char = self.content.line_to_char(line_idx);
                return self.position_for_end_of_line(line_char);
            }
        }

        0
    }

    /// Pointer pressed. On the scrollbar, dragging begins and the
    /// offset jumps to the pointer's fraction of the bar. Otherwise
    /// selecting begins and, by click kind: shift extends the
    /// selection to the character under the pointer, a double click
    /// selects the word there, a triple click selects the visual
    /// line, and a plain click places the cursor.
    pub fn on_mouse_down(&mut self, position: PointPx, click_count: u32, shift: bool)
        requires
            old(self).wf(),
            old(self).blink_manager.epoch < usize::MAX - 2,
            old(self).scroll_manager.calc_epoch < usize::MAX - 2,
            old(self).scroll_manager.show_epoch < usize::MAX - 2,
            old(self).content_epoch < usize::MAX - 2,
        ensures
            final(self).wf(),
            epoch_deltas(*old(self), *final(self), 1, 2, 1, 0),
            final(self)@ == old(self)@,
            ({
                let on_bar = old(self).last_bounds is Some && old(self).last_layout is Some
                    && old(self).last_bounds.unwrap().wf() && position.x >= old(
                    self,
                ).last_bounds.unwrap().spec_right() - old(self).scroll_manager.width;
                &&& (on_bar ==> ({
                    let bounds = old(self).last_bounds.unwrap();
                    let layout = old(self).last_layout.unwrap();
                    &&& final(self).is_scroll_dragging
                    &&& final(self).is_selecting == old(self).is_selecting
                    &&& final(self).selected_range == old(self).selected_range
                    &&& final(self).selection_reversed == old(self).selection_reversed
                    &&& ((position.small() && bounds.height >= 1)
                        ==> final(self).scroll_manager.offset.y
                        == crate::scroll::offset_y_after_drag(
                        crate::layout::height_before(
                            layout.lines@,
                            layout.lines@.len() as int,
                            layout.line_height as int,
                        ),
                        bounds,
                        position.y as int,
                    ) && final(self).scroll_manager.offset.x == old(self).scroll_manager.offset.x
                        && final(self).scroll_manager.show)
                    &&& (!(position.small() && bounds.height >= 1) ==> final(self).scroll_manager
                        == old(self).scroll_manager)
                }))
                &&& (!on_bar ==> ({
                    let i = old(self).mouse_index_spec(position);
                    &&& final(self).is_selecting
                    &&& final(self).is_scroll_dragging == old(self).is_scroll_dragging
                    &&& (shift ==> ({
                        let (range, rev) = select_to_spec(
                            old(self).selected_range,
                            old(self).selection_reversed,
                            i as usize,
                        );
                        final(self).selected_range == range && final(self).selection_reversed
                            == rev
                    }))
                    &&& ((!shift && click_count == 2) ==> ({
                        let nb = if i < old(self)@.len() {
                            i + 1
                        } else {
                            old(self)@.len() as int
                        };
                        let prev = start_word_from(old(self)@, nb, None, false);
                        let next = end_word_from(old(self)@, i, None, false);
                        let (range, rev) = select_to_spec(
                            CharRange { start: prev as usize, end: prev as usize },
                            old(self).selection_reversed,
                            next as usize,
                        );
                        final(self).selected_range == range && final(self).selection_reversed
                            == rev
                    }))
                    &&& ((!shift && click_count == 3) ==> ({
                        let start = old(self).start_of_line_spec();
                        let end = old(self).end_of_line_spec(start);
                        let (range, rev) = select_to_spec(
                            CharRange { start: start as usize, end: start as usize },
                            old(self).selection_reversed,
                            end as usize,
                        );
                        final(self).selected_range == range && final(self).selection_reversed
                            == rev
                    }))
                    &&& ((!shift && click_count != 2 && click_count != 3)
                        ==> final(self).selected_range == (CharRange {
                        start: i as usize,
                        end: i as usize,
                    }) && final(self).selection_reversed == old(self).selection_reversed)
                }))
            }),
    {
        if let (Some(bounds), Some(layout)) = (&self.last_bounds, &self.last_layout) {
            let b = *bounds;
            if b.check_wf() && self.scroll_manager.is_in_scrollbar(position, &b) {
                self.is_scroll_dragging = true;
                if position.check_small() && b.height >= 1 {
                    let _ = self.scroll_manager.scroll_to(position, layout, &b);
                }
                return ;
            }
        }

        self.is_selecting = true;

        if shift {
            let i = self.index_for_mouse_position(position);
            proof {
                assert(i as int == old(self).mouse_index_spec(position));
            }
            self.select_to(i);
        } else if click_count == 2 {
            let offset = self.index_for_mouse_position(position);
            proof {
                assert(offset as int == old(self).mouse_index_spec(position));
            }
            let nb = self.next_boundary(offset);
            let prev = self.start_of_word(nb);
            let next = self.end_of_word(offset);
            proof {
                assert(prev as int == start_word_from(old(self)@, nb as int, None, false));
                assert(next as int == end_word_from(old(self)@, offset as int, None, false));
            }
            self.move_to(prev);
            self.select_to(next);
        } else if click_count == 3 {
            let start = self.position_for_start_of_line();
            proof {
                assert(start as int == old(self).start_of_line_spec());
            }
            self.move_to(start);
            let cursor = self.cursor_offset();
            let end = self.position_for_end_of_line(cursor);
            proof {
                assert(end as int == old(self).end_of_line_spec(start as int));
            }
            self.select_to(end);
        } else {
            let i = self.index_for_mouse_position(position);
            proof {
                assert(i as int == old(self).mouse_index_spec(position));
            }
            self.move_to(i);
        }
    }

    /// Pointer released: stop selecting and dragging.
    pub fn on_mouse_up(&mut self)
        ensures
            *final(self) == (TextInput {
                is_selecting: false,
                is_scroll_dragging: false,
                ..*old(self)
            }),
    {
        self.is_selecting = false;
        self.is_scroll_dragging = false;
    }

    /// Pointer moved: while selecting, the selection extends to the
    /// character under the pointer; while dragging the scrollbar,
    /// the offset follows the drag; otherwise nothing changes.
    pub fn on_mouse_move(&mut self, position: PointPx)
        requires
            old(self).wf(),
            old(self).blink_manager.epoch < usize::MAX - 2,
            old(self).scroll_manager.calc_epoch < usize::MAX - 2,
            old(self).scroll_manager.show_epoch < usize::MAX - 2,
            old(self).content_epoch < usize::MAX - 2,
        ensures
            final(self).wf(),
            epoch_deltas(*old(self), *final(self), 0, 1, 1, 0),
            final(self)@ == old(self)@,
            old(self).is_selecting ==> ({
                let (range, rev) = select_to_spec(
                    old(self).selected_range,
                    old(self).selection_reversed,
                    old(self).mouse_index_spec(position) as usize,
                );
                final(self).selected_range == range && final(self).selection_reversed == rev
            }),
            (!old(self).is_selecting && old(self).is_scroll_dragging) ==> ({
                let applies = old(self).last_bounds is Some && old(self).last_layout is Some
                    && old(self).last_bounds.unwrap().wf() && position.small() && old(
                    self,
                ).last_bounds.unwrap().height >= 1;
                &&& (!applies ==> *final(self) == *old(self))
                &&& (applies ==> ({
                    let layout = old(self).last_layout.unwrap();
                    let bounds = old(self).last_bounds.unwrap();
                    &&& final(self).scroll_manager.offset.y
                        == crate::scroll::offset_y_after_drag(
                        crate::layout::height_before(
                            layout.lines@,
                            layout.lines@.len() as int,
                            layout.line_height as int,
                        ),
                        bounds,
                        position.y as int,
                    )
                    &&& final(self).scroll_manager.offset.x == old(self).scroll_manager.offset.x
                    &&& final(self).scroll_manager.show
                    &&& final(self).selected_range == old(self).selected_range
                }))
            }),
            (!old(self).is_selecting && !old(self).is_scroll_dragging) ==> *final(self) == *old(
                self,
            ),
    {
        if self.is_selecting {
            let i = self.index_for_mouse_position(position);
            self.select_to(i);
        } else if self.is_scroll_dragging {
            if let (Some(bounds), Some(layout)) = (&self.last_bounds, &self.last_layout) {
                let b = *bounds;
                if b.check_wf() && position.check_small() && b.height >= 1 {
                    let _ = self.scroll_manager.scroll_to(position, layout, &b);
                }
            }
        }
    }

    /// Wheel or trackpad scroll, as a pixel delta: the offset moves
    /// by the delta and clamps to the content's extent on each axis.
    pub fn on_scroll_wheel(&mut self, delta: PointPx)
        requires
            old(self).wf(),
            old(self).blink_manager.epoch < usize::MAX - 2,
            old(self).scroll_manager.calc_epoch < usize::MAX - 2,
            old(self).scroll_manager.show_epoch < usize::MAX - 2,
            old(self).content_epoch < usize::MAX - 2,
        ensures
            final(self).wf(),
            epoch_deltas(*old(self), *final(self), 0, 0, 1, 0),
            final(self)@ == old(self)@,
            ({
                let applies = old(self).last_layout is Some && old(self).last_bounds is Some
                    && old(self).last_bounds.unwrap().wf() && delta.small();
                &&& (!applies ==> *final(self) == *old(self))
                &&& (applies ==> ({
                    let layout = old(self).last_layout.unwrap();
                    let bounds = old(self).last_bounds.unwrap();
                    let lh = layout.line_height as int;
                    &&& final(self).scroll_manager.offset.x
                        == crate::scroll::offset_after_scroll(
                        old(self).scroll_manager.offset.x as int,
                        delta.x as int,
                        crate::layout::width_from(layout.lines@, 0),
                        bounds.width as int,
                    )
                    &&& final(self).scroll_manager.offset.y
                        == crate::scroll::offset_after_scroll(
                        old(self).scroll_manager.offset.y as int,
                        delta.y as int,
                        crate::layout::height_before(layout.lines@, layout.lines@.len() as int, lh)
                            + lh * 2,
                        bounds.height as int,
                    )
                    &&& final(self).scroll_manager.show
                    &&& final(self).selected_range == old(self).selected_range
                    &&& final(self).marked_range == old(self).marked_range
                }))
            }),
    {
        if let (Some(layout), Some(bounds)) = (&self.last_layout, &self.last_bounds) {
            let b = *bounds;
            if b.check_wf() && delta.check_small() {
                let _ = self.scroll_manager.calc_offset_after_scroll(delta, layout, &b);
            }
        }
    }

    /// Repositions the viewport so the cursor is visible, if the
    /// recomputation token is still current and a layout is stored.
    pub fn update_scroll_manager(&mut self, epoch: usize, offset: usize)
        requires
            old(self).wf(),
            old(self).blink_manager.epoch < usize::MAX - 2,
            old(self).scroll_manager.calc_epoch < usize::MAX - 2,
            old(self).scroll_manager.show_epoch < usize::MAX - 2,
            old(self).content_epoch < usize::MAX - 2,
            offset <= old(self)@.len(),
        ensures
            final(self).wf(),
            epoch_deltas(*old(self), *final(self), 0, 0, 1, 0),
            final(self)@ == old(self)@,
            final(self).selected_range == old(self).selected_range,
            final(self).pending_scroll == old(self).pending_scroll,
            scroll_reveal_ok(*old(self), final(self).scroll_manager, epoch, offset as int),
    {
        let bounds = match &self.last_bounds {
            Some(b) => *b,
            None => {
                return ;
            },
        };
        if !bounds.check_wf() {
            return ;
        }
        let line_idx = self.content.char_to_line(offset);
        let byte_idx = self.content.line_to_byte(line_idx);
        let cursor_idx = self.content.char_to_byte(offset);
        if cursor_idx < byte_idx {
            return ;
        }
        let in_line = cursor_idx - byte_idx;

        let layout = match self.last_layout.take() {
            None => {
                return ;
            },
            Some(l) => l,
        };
        if line_idx < layout.lines.len() {
            let _ = self.scroll_manager.calc_offset_after_move(
                epoch,
                line_idx,
                in_line,
                &layout,
                &bounds,
            );
        }
        self.last_layout = Some(layout);
    }

    /// Runs the scroll recomputation scheduled for this paint, if
    /// its token is still current.
    pub fn notify_about_paint(&mut self)
        requires
            old(self).wf(),
            old(self).blink_manager.epoch < usize::MAX - 2,
            old(self).scroll_manager.calc_epoch < usize::MAX - 2,
            old(self).scroll_manager.show_epoch < usize::MAX - 2,
            old(self).content_epoch < usize::MAX - 2,
        ensures
            final(self).wf(),
            epoch_deltas(*old(self), *final(self), 0, 0, 1, 0),
            final(self)@ == old(self)@,
            final(self).pending_scroll is None,
            old(self).pending_scroll is None ==> *final(self) == *old(self),
            old(self).pending_scroll is Some ==> ({
                let (epoch, offset) = old(self).pending_scroll.unwrap();
                offset <= old(self)@.len() ==> scroll_reveal_ok(
                    *old(self),
                    final(self).scroll_manager,
                    epoch,
                    offset as int,
                )
            }),
    {
        let (epoch, offset) = match self.pending_scroll {
            None => {
                return ;
            },
            Some(p) => p,
        };
        self.pending_scroll = None;
        let len = self.content.len_chars();
        if offset <= len {
            self.update_scroll_manager(epoch, offset);
        }
    }

    /// The text a copy takes: the selection, or the cursor's visual
    /// line (with its line break) when the selection is empty.
    pub fn copy_text(&self) -> (r: String)
        requires
            self.wf(),
        ensures
            !self.selected_range.is_empty() ==> r@ == self@.subrange(
                self.selected_range.start as int,
                self.selected_range.end as int,
            ),
            self.selected_range.is_empty() ==> ({
                let st = self.start_of_line_spec();
                let le = self.end_of_line_spec(self.cursor_offset_spec() as int);
                let e = if le < self@.len() {
                    le + 1
                } else {
                    self@.len() as int
                };
                &&& (st <= e ==> r@ == self@.subrange(st, e))
                &&& (st > e ==> r@ == Seq::<char>::empty())
            }),
    {
        if self.selected_range.is_empty() {
            let start = self.position_for_start_of_line();
            let cursor = self.cursor_offset();
            let line_end = self.position_for_end_of_line(cursor);
            let end = self.next_boundary(line_end);
            if start <= end {
                let text = self.content.slice_string(start, end);
                proof {
                    assert(0 <= start as int <= end as int <= self@.len() && text@
                        == self@.subrange(start as int, end as int));
                }
                text
            } else {
                proof {
                    assert(self@.subrange(0, 0) =~= Seq::<char>::empty());
                }
                String::new()
            }
        } else {
            self.content.slice_string(self.selected_range.start, self.selected_range.end)
        }
    }

    /// Cut: returns what a copy would take and deletes it.
    pub fn cut(&mut self) -> (r: String)
        requires
            old(self).wf(),
            old(self).blink_manager.epoch < usize::MAX - 2,
            old(self).scroll_manager.calc_epoch < usize::MAX - 2,
            old(self).scroll_manager.show_epoch < usize::MAX - 2,
            old(self).content_epoch < usize::MAX - 2,
            old(self)@.len() < usize::MAX,
        ensures
            final(self).wf(),
            epoch_deltas(*old(self), *final(self), 1, 1, 0, 2),
            (!old(self).selected_range.is_empty() && old(self).marked_range is None) ==> ({
                let sel = old(self).selected_range;
                r@ == old(self)@.subrange(sel.start as int, sel.end as int) && final(self)@
                    == remove_text(old(self)@, sel.start as int, sel.end - sel.start)
            }),
            old(self).selected_range.is_empty() ==> ({
                let st = old(self).start_of_line_spec();
                let le = old(self).end_of_line_spec(old(self).cursor_offset_spec() as int);
                let e = if le < old(self)@.len() {
                    le + 1
                } else {
                    old(self)@.len() as int
                };
                &&& (st <= e && old(self).marked_range is None ==> r@ == old(self)@.subrange(st, e)
                    && final(self)@ == remove_text(old(self)@, st, e - st))
                &&& (st > e ==> r@ == Seq::<char>::empty() && final(self)@ == old(self)@)
            }),
    {
        proof {
            reveal_strlit("");
        }
        if self.selected_range.is_empty() {
            let start = self.position_for_start_of_line();
            let cursor = self.cursor_offset();
            let line_end = self.position_for_end_of_line(cursor);
            let end = self.next_boundary(line_end);
            if start <= end {
                let text = self.content.slice_string(start, end);
                self.unmark_text();
                self.replace_text_in_range(Some(CharRange::new(start, end)), "");
                proof {
                    let s = start as int;
                    let n = end - start;
                    assert(insert_text(
                        remove_text(old(self)@, s, n),
                        s,
                        Seq::<char>::empty(),
                    ) =~= remove_text(old(self)@, s, n));
                    assert(0 <= s && 0 <= n && s + n <= old(self)@.len() && text@ == old(
                        self,
                    )@.subrange(s, s + n) && self@ == remove_text(old(self)@, s, n));
                }
                text
            } else {
                proof {
                    assert(old(self)@.subrange(0, 0) =~= Seq::<char>::empty());
                    assert(remove_text(old(self)@, 0, 0) =~= old(self)@);
                }
                String::new()
            }
        } else {
            let text = self.content.slice_string(
                self.selected_range.start,
                self.selected_range.end,
            );
            self.replace_text_in_range(None, "");
            proof {
                if old(self).marked_range is None {
                    let sel = old(self).selected_range;
                    assert(insert_text(
                        remove_text(old(self)@, sel.start as int, sel.end - sel.start),
                        sel.start as int,
                        Seq::<char>::empty(),
                    ) =~= remove_text(old(self)@, sel.start as int, sel.end - sel.start));
                }
            }
            text
        }
    }
}



/// The rectangle values (x, y, width, height) one visual row
/// contributes to shading the line-local byte range `[s_in, e_in]`:
/// the row's overlap with the range, measured in summed advance
/// widths from the row's start, or nothing when they do not overlap.
pub open spec fn row_rect_vals(
    l: crate::layout::LineLayout,
    k: int,
    s_in: int,
    e_in: int,
    base_y: int,
    bounds: RectPx,
    lh: int,
) -> Option<(int, int, int, int)> {
    let rs_char = l.row_starts@[k] as int;
    let re_char = if k + 1 < l.rows() {
        l.row_starts@[k + 1] as int
    } else {
        l.chars@.len() as int
    };
    let rb_start = if rs_char < l.char_bytes@.len() {
        l.char_bytes@[rs_char] as int
    } else {
        l.len_bytes as int
    };
    let rb_end = if re_char < l.char_bytes@.len() {
        l.char_bytes@[re_char] as int
    } else {
        l.len_bytes as int
    };
    let a = if s_in >= rb_start {
        s_in
    } else {
        rb_start
    };
    let b = if e_in <= rb_end {
        e_in
    } else {
        rb_end
    };
    if a < b {
        let ca = crate::layout::char_idx_for_byte_from(l, a, 0);
        let cb = crate::layout::char_idx_for_byte_from(l, b, 0);
        if ca <= cb && cb <= l.widths@.len() && rs_char <= ca {
            Some(
                (
                    bounds.origin.x + crate::layout::sum_widths(l.widths@, rs_char, ca),
                    bounds.origin.y + base_y + k * lh,
                    crate::layout::sum_widths(l.widths@, ca, cb),
                    lh,
                ),
            )
        } else {
            None
        }
    } else {
        None
    }
}

/// The rectangles one line contributes, walking its rows from `k`.
pub open spec fn line_rects_from(
    l: crate::layout::LineLayout,
    k: int,
    s_in: int,
    e_in: int,
    base_y: int,
    bounds: RectPx,
    lh: int,
) -> Seq<(int, int, int, int)>
    decreases l.rows() - k,
    when 0 <= k
{
    if k >= l.rows() {
        seq![]
    } else {
        let rest = line_rects_from(l, k + 1, s_in, e_in, base_y, bounds, lh);
        match row_rect_vals(l, k, s_in, e_in, base_y, bounds, lh) {
            Some(v) => seq![v] + rest,
            None => rest,
        }
    }
}

/// The rectangles shading the byte range `[sb, eb]` over the lines
/// `[li, el]` of a layout; the walk stops at a line the stored
/// layout no longer holds.
pub open spec fn sel_rects_from(
    s: Seq<char>,
    layout: Lines,
    bounds: RectPx,
    sb: int,
    eb: int,
    sl: int,
    el: int,
    li: int,
) -> Seq<(int, int, int, int)>
    decreases el + 1 - li,
    when li <= el + 1
{
    if li > el {
        seq![]
    } else if li >= layout.lines@.len() || li > crate::text::newline_count(s) {
        seq![]
    } else {
        let lh = layout.line_height as int;
        let lb = crate::text::byte_offset_of(s, crate::text::line_start_at(s, li));
        let l = layout.lines@[li];
        let s_in: int = if li == sl {
            if sb >= lb {
                sb - lb
            } else {
                0
            }
        } else {
            0
        };
        let e_raw: int = if li == el {
            if eb >= lb {
                eb - lb
            } else {
                0
            }
        } else {
            l.len_bytes as int
        };
        let e_in: int = if e_raw <= l.len_bytes {
            e_raw
        } else {
            l.len_bytes as int
        };
        let here = if s_in <= e_in {
            line_rects_from(
                l,
                0,
                s_in,
                e_in,
                crate::layout::height_before(layout.lines@, li, lh),
                bounds,
                lh,
            )
        } else {
            seq![]
        };
        here + sel_rects_from(s, layout, bounds, sb, eb, sl, el, li + 1)
    }
}

/// Rectangles as their (x, y, width, height) values.
pub open spec fn rect_vals(rects: Seq<RectPx>) -> Seq<(int, int, int, int)> {
    rects.map_values(
        |q: RectPx| (q.origin.x as int, q.origin.y as int, q.width as int, q.height as int),
    )
}


/// The rectangle one visual row contributes, computed; equals
/// `row_rect_vals` field for field.
fn row_rect_exec(
    l: &crate::layout::LineLayout,
    Ghost(wrap): Ghost<Option<u64>>,
    k: usize,
    s_in: usize,
    e_in: usize,
    base_y: u64,
    bounds: &RectPx,
    lh: u64,
) -> (r: Option<RectPx>)
    requires
        l.wf(wrap),
        bounds.wf(),
        1 <= lh <= crate::layout::MAX_ADVANCE,
        base_y <= 0x1_0000_0000,
        k < l.rows(),
        e_in <= l.len_bytes,
    ensures
        ({
            let v = row_rect_vals(*l, k as int, s_in as int, e_in as int, base_y as int, *bounds, lh as int);
            &&& (r is Some <==> v is Some)
            &&& (r is Some ==> ({
                let q = r.unwrap();
                q.origin.x as int == v.unwrap().0 && q.origin.y as int == v.unwrap().1
                    && q.width as int == v.unwrap().2 && q.height as int == v.unwrap().3
                    && q.height == lh && q.width >= 0
            }))
        }),
{
    proof {
        crate::layout::lemma_row_starts_props(*l, wrap);
        crate::layout::lemma_line_rows_bound(*l, wrap);
    }
    let rows = l.row_starts.len();
    let rs_char = l.row_starts[k];
    let re_char = if k + 1 < rows {
        l.row_starts[k + 1]
    } else {
        l.chars.len()
    };
    let rb_start = if rs_char < l.char_bytes.len() {
        l.char_bytes[rs_char]
    } else {
        l.len_bytes
    };
    let rb_end = if re_char < l.char_bytes.len() {
        l.char_bytes[re_char]
    } else {
        l.len_bytes
    };
    let a = if s_in >= rb_start {
        s_in
    } else {
        rb_start
    };
    let b = if e_in <= rb_end {
        e_in
    } else {
        rb_end
    };
    if a < b {
        let ca = crate::layout::char_idx_for_byte(l, a);
        let cb = crate::layout::char_idx_for_byte(l, b);
        proof {
            crate::layout::lemma_char_idx_for_byte_bounds(*l, a as int, 0);
            crate::layout::lemma_char_idx_for_byte_bounds(*l, b as int, 0);
        }
        if ca <= cb && cb <= l.widths.len() && rs_char <= ca {
            let x_from = crate::layout::sum_widths_exec(&l.widths, rs_char, ca);
            let seg_w = crate::layout::sum_widths_exec(&l.widths, ca, cb);
            proof {
                crate::layout::lemma_sum_widths_bound(l.widths@, rs_char as int, ca as int);
                crate::layout::lemma_sum_widths_bound(l.widths@, ca as int, cb as int);
                vstd::arithmetic::mul::lemma_mul_inequality(
                    ca - rs_char,
                    crate::layout::MAX_LAYOUT_CHARS as int,
                    crate::layout::MAX_ADVANCE as int,
                );
                vstd::arithmetic::mul::lemma_mul_inequality(
                    cb - ca,
                    crate::layout::MAX_LAYOUT_CHARS as int,
                    crate::layout::MAX_ADVANCE as int,
                );
                vstd::arithmetic::mul::lemma_mul_inequality(
                    k as int,
                    (crate::layout::MAX_LAYOUT_CHARS as int) + 1,
                    lh as int,
                );
                vstd::arithmetic::mul::lemma_mul_inequality(
                    lh as int,
                    crate::layout::MAX_ADVANCE as int,
                    (crate::layout::MAX_LAYOUT_CHARS as int) + 1,
                );
            }
            let y = base_y + (k as u64) * lh;
            Some(
                RectPx::new(
                    bounds.origin.x + (x_from as i64),
                    bounds.origin.y + (y as i64),
                    seg_w as i64,
                    lh as i64,
                ),
            )
        } else {
            None
        }
    } else {
        None
    }
}

impl TextInput {
    /// Rectangles that shade a character range in the stored
    /// layout, one per visual row the range touches, each one line
    /// high and equal to the summed-width segment of the row's
    /// overlap with the range. `None` for an empty range or without
    /// a layout. Serves both the selection and the search-match
    /// emphasis.
    #[verifier::loop_isolation(false)]
    #[verifier::rlimit(100)]
    pub fn selection_rects(&self, range: CharRange) -> (r: Option<Vec<RectPx>>)
        requires
            self.wf(),
            range.wf_for(self@.len() as int),
        ensures
            (r is Some) <==> (!range.is_empty() && self.last_layout is Some && self.last_bounds
                is Some && self.last_bounds.unwrap().wf()),
            r is Some ==> ({
                let s = self@;
                let layout = self.last_layout.unwrap();
                let lh = layout.line_height;
                &&& rect_vals(r.unwrap()@) == sel_rects_from(
                    s,
                    layout,
                    self.last_bounds.unwrap(),
                    crate::text::byte_offset_of(s, range.start as int),
                    crate::text::byte_offset_of(s, range.end as int),
                    crate::text::newlines_before(s, range.start as int),
                    crate::text::newlines_before(s, range.end as int),
                    crate::text::newlines_before(s, range.start as int),
                )
                &&& (forall|i: int|
                    0 <= i < r.unwrap()@.len() ==> (#[trigger] r.unwrap()@[i]).height == lh
                        && r.unwrap()@[i].width >= 0)
            }),
    {
        if range.is_empty() {
            return None;
        }
        let layout = match &self.last_layout {
            None => {
                return None;
            },
            Some(l) => l,
        };
        let bounds = match &self.last_bounds {
            None => {
                return None;
            },
            Some(b) => *b,
        };
        if !bounds.check_wf() {
            return None;
        }

        let ghost s = self@;
        let sb = self.content.char_to_byte(range.start);
        let eb = self.content.char_to_byte(range.end);
        let sl = self.content.char_to_line(range.start);
        let el = self.content.char_to_line(range.end);
        proof {
            crate::text::lemma_newlines_before_monotone(
                self@,
                range.start as int,
                range.end as int,
            );
        }
        let breaks = self.content.len_lines() - 1;
        let ghost target = sel_rects_from(
            s,
            *layout,
            bounds,
            sb as int,
            eb as int,
            sl as int,
            el as int,
            sl as int,
        );

        let mut rects: Vec<RectPx> = Vec::new();
        let mut li: usize = sl;
        proof {
            assert(rect_vals(rects@) + target =~= target);
        }
        while li <= el
            invariant
                sl <= li <= el + 1,
                rect_vals(rects@) + sel_rects_from(
                    s,
                    *layout,
                    bounds,
                    sb as int,
                    eb as int,
                    sl as int,
                    el as int,
                    li as int,
                ) == target,
                forall|i: int|
                    0 <= i < rects@.len() ==> (#[trigger] rects@[i]).height
                        == layout.line_height && rects@[i].width >= 0,
            decreases el + 1 - li,
        {
            if li >= layout.lines.len() || li > breaks {
                proof {
                    assert(sel_rects_from(
                        s,
                        *layout,
                        bounds,
                        sb as int,
                        eb as int,
                        sl as int,
                        el as int,
                        li as int,
                    ) =~= Seq::<(int, int, int, int)>::empty());
                    assert(rect_vals(rects@) + Seq::<(int, int, int, int)>::empty() =~= rect_vals(
                        rects@,
                    ));
                }
                break ;
            }
            let line_byte = self.content.line_to_byte(li);
            let l = &layout.lines[li];
            proof {
                assert(layout.lines@[li as int].wf(layout.wrap_width));
                crate::layout::lemma_row_starts_props(*l, layout.wrap_width);
                layout.lemma_height_fits(li as int);
                crate::layout::lemma_line_rows_bound(*l, layout.wrap_width);
            }
            let s_in: usize = if li == sl {
                if sb >= line_byte {
                    sb - line_byte
                } else {
                    0
                }
            } else {
                0
            };
            let e_in_raw: usize = if li == el {
                if eb >= line_byte {
                    eb - line_byte
                } else {
                    0
                }
            } else {
                l.len_bytes
            };
            let e_in: usize = if e_in_raw <= l.len_bytes {
                e_in_raw
            } else {
                l.len_bytes
            };

            let base_y = layout.height_till_line_idx(li);
            proof {
                assert(base_y as int == crate::layout::height_before(
                    layout.lines@,
                    li as int,
                    layout.line_height as int,
                ));
            }
            let ghost pre_line = rects@;
            let ghost line_target = if s_in as int <= e_in as int {
                line_rects_from(
                    *l,
                    0,
                    s_in as int,
                    e_in as int,
                    base_y as int,
                    bounds,
                    layout.line_height as int,
                )
            } else {
                Seq::<(int, int, int, int)>::empty()
            };
            if s_in <= e_in {
                let rows = l.row_starts.len();
                let mut k: usize = 0;
                while k < rows
                    invariant
                        k <= rows,
                        rect_vals(rects@) + line_rects_from(
                            *l,
                            k as int,
                            s_in as int,
                            e_in as int,
                            base_y as int,
                            bounds,
                            layout.line_height as int,
                        ) == rect_vals(pre_line) + line_target,
                        forall|i: int|
                            0 <= i < rects@.len() ==> (#[trigger] rects@[i]).height
                                == layout.line_height && rects@[i].width >= 0,
                    decreases rows - k,
                {
                    let ghost pre = rects@;
                    let ghost vals = row_rect_vals(
                        *l,
                        k as int,
                        s_in as int,
                        e_in as int,
                        base_y as int,
                        bounds,
                        layout.line_height as int,
                    );
                    match row_rect_exec(
                        l,
                        Ghost(layout.wrap_width),
                        k,
                        s_in,
                        e_in,
                        base_y,
                        &bounds,
                        layout.line_height,
                    ) {
                        Some(rect) => {
                            rects.push(rect);
                            proof {
                                assert(vals == Some(
                                    (
                                        rect.origin.x as int,
                                        rect.origin.y as int,
                                        rect.width as int,
                                        rect.height as int,
                                    ),
                                ));
                                assert(rect_vals(rects@) =~= rect_vals(pre).push(
                                    (
                                        rect.origin.x as int,
                                        rect.origin.y as int,
                                        rect.width as int,
                                        rect.height as int,
                                    ),
                                ));
                                assert(rect_vals(rects@) + line_rects_from(
                                    *l,
                                    k as int + 1,
                                    s_in as int,
                                    e_in as int,
                                    base_y as int,
                                    bounds,
                                    layout.line_height as int,
                                ) =~= rect_vals(pre) + line_rects_from(
                                    *l,
                                    k as int,
                                    s_in as int,
                                    e_in as int,
                                    base_y as int,
                                    bounds,
                                    layout.line_height as int,
                                ));
                            }
                        },
                        None => {
                            proof {
                                assert(vals is None);
                            }
                        },
                    }
                    k = k + 1;
                }
                proof {
                    assert(line_rects_from(
                        *l,
                        rows as int,
                        s_in as int,
                        e_in as int,
                        base_y as int,
                        bounds,
                        layout.line_height as int,
                    ) =~= Seq::<(int, int, int, int)>::empty());
                    assert(rect_vals(rects@) + Seq::<(int, int, int, int)>::empty() =~= rect_vals(
                        rects@,
                    ));
                }
            }
            proof {
                assert(sel_rects_from(
                    s,
                    *layout,
                    bounds,
                    sb as int,
                    eb as int,
                    sl as int,
                    el as int,
                    li as int,
                ) == line_target + sel_rects_from(
                    s,
                    *layout,
                    bounds,
                    sb as int,
                    eb as int,
                    sl as int,
                    el as int,
                    li as int + 1,
                ));
                assert(rect_vals(rects@) + sel_rects_from(
                    s,
                    *layout,
                    bounds,
                    sb as int,
                    eb as int,
                    sl as int,
                    el as int,
                    li as int + 1,
                ) =~= rect_vals(pre_line) + (line_target + sel_rects_from(
                    s,
                    *layout,
                    bounds,
                    sb as int,
                    eb as int,
                    sl as int,
                    el as int,
                    li as int + 1,
                )));
            }
            li = li + 1;
        }
        proof {
            if li > el {
                assert(sel_rects_from(
                    s,
                    *layout,
                    bounds,
                    sb as int,
                    eb as int,
                    sl as int,
                    el as int,
                    li as int,
                ) =~= Seq::<(int, int, int, int)>::empty());
                assert(rect_vals(rects@) + Seq::<(int, int, int, int)>::empty() =~= rect_vals(
                    rects@,
                ));
            }
        }
        Some(rects)
    }
}


} // verus!
