//! Byte edits: the overlay over the file's bytes, with undo and redo, and
//! the hex and character editors built on it.
use vstd::prelude::*;
use crate::app::{lemma_wf_edit, lemma_wf_parts, lemma_wf_records, lemma_wf_same_records, App, UndoEntry};
use crate::bitmap::{needle_span, BitSearch, GB_SIZE};
use crate::search::{hv, Needle};
use crate::text::hex_value;
use std::collections::HashMap;
use crate::modified::{ModifiedMap, OFFSET_LIMIT};

verus! {

broadcast use vstd::std_specs::hash::group_hash_axioms;

/// The first values kept after an edit of `off` that replaced `cur`: the
/// first edit of an offset keeps the value it replaced.
pub open spec fn keep_first(m: Map<usize, u8>, off: usize, cur: u8) -> Map<usize, u8> {
    if m.contains_key(off) {
        m
    } else {
        m.insert(off, cur)
    }
}

/// Edits remain: there are entries to undo, or edited bytes.
#[verifier::opaque]
pub open spec fn edits_remain(undo: Seq<UndoEntry>, overlay: Map<usize, u8>) -> bool {
    undo.len() > 0 || overlay.len() > 0
}

/// The overlay once `e` is undone over a file holding `file_byte` at its
/// offset: no edit is left there when the old value is the file's own.
pub open spec fn undone_overlay(m: Map<usize, u8>, e: UndoEntry, file_byte: u8) -> Map<usize, u8> {
    if file_byte == e.old {
        m.remove(e.offset)
    } else {
        m.insert(e.offset, e.old)
    }
}

impl App {
    /// `new` is `old` after setting the byte at `off` to `val`: when `off` is
    /// in the file and shows another value, the overlay takes the value, the
    /// first value of the offset is kept, the change is pushed on the undo
    /// stack, the redo stack is emptied, and the offset is recorded as
    /// edited and as the last modified; otherwise nothing changes.
    #[verifier::opaque]
    pub open spec fn modified_to(new: App, old: App, mmap: Seq<u8>, off: usize, val: u8) -> bool {
        let cur = old.shown(mmap, off as int);
        if off < old.file_size && cur != val {
            &&& new.overlay@ == old.overlay@.insert(off, val)
            &&& new.original_values@ == keep_first(old.original_values@, off, cur)
            &&& new.undo_stack@ == old.undo_stack@.push(UndoEntry { offset: off, old: cur, new: val })
            &&& new.redo_stack@.len() == 0
            &&& new.dirty
            &&& new.last_modified == Some(off)
            &&& forall|o: int| #[trigger] new.modified.has(o) == (o == off || old.modified.has(o))
            &&& new == (App {
                overlay: new.overlay,
                original_values: new.original_values,
                undo_stack: new.undo_stack,
                redo_stack: new.redo_stack,
                dirty: new.dirty,
                last_modified: new.last_modified,
                modified: new.modified,
                ..old
            })
        } else {
            new == old
        }
    }

    /// `new` is `old` after undoing its last change (over the file `mmap`):
    /// the entry leaves the undo stack; when its offset is in the file, the
    /// old value is shown there again, the entry goes on the redo stack, the
    /// state is dirty while edits remain, and the offset is the last
    /// modified. Without an entry nothing changes.
    #[verifier::opaque]
    pub open spec fn undone(new: App, old: App, mmap: Seq<u8>) -> bool {
        if old.undo_stack@.len() == 0 {
            new == old
        } else {
            let e = old.undo_stack@.last();
            if e.offset < old.file_size {
                &&& new.undo_stack@ == old.undo_stack@.drop_last()
                &&& new.overlay@ == undone_overlay(old.overlay@, e, mmap[e.offset as int])
                &&& new.redo_stack@ == old.redo_stack@.push(e)
                &&& new.dirty == edits_remain(new.undo_stack@, new.overlay@)
                &&& new.last_modified == Some(e.offset)
                &&& new == (App {
                    undo_stack: new.undo_stack,
                    overlay: new.overlay,
                    redo_stack: new.redo_stack,
                    dirty: new.dirty,
                    last_modified: new.last_modified,
                    ..old
                })
            } else {
                &&& new.undo_stack@ == old.undo_stack@.drop_last()
                &&& new == (App { undo_stack: new.undo_stack, ..old })
            }
        }
    }

    /// `new` is `old` after redoing its last undone change: the entry leaves
    /// the redo stack; when its offset is in the file, its new value is shown
    /// there again, the entry goes back on the undo stack, the state is
    /// dirty and the offset is the last modified. Without an entry nothing
    /// changes.
    #[verifier::opaque]
    pub open spec fn redone(new: App, old: App) -> bool {
        if old.redo_stack@.len() == 0 {
            new == old
        } else {
            let e = old.redo_stack@.last();
            if e.offset < old.file_size {
                &&& new.redo_stack@ == old.redo_stack@.drop_last()
                &&& new.overlay@ == old.overlay@.insert(e.offset, e.new)
                &&& new.undo_stack@ == old.undo_stack@.push(e)
                &&& new.dirty
                &&& new.last_modified == Some(e.offset)
                &&& new == (App {
                    redo_stack: new.redo_stack,
                    overlay: new.overlay,
                    undo_stack: new.undo_stack,
                    dirty: new.dirty,
                    last_modified: new.last_modified,
                    ..old
                })
            } else {
                &&& new.redo_stack@ == old.redo_stack@.drop_last()
                &&& new == (App { redo_stack: new.redo_stack, ..old })
            }
        }
    }

    /// The byte shown at `off`: the edited value, else the file's.
    pub fn byte_at(&self, mmap: &[u8], off: usize) -> (r: u8)
        requires
            off < mmap@.len(),
        ensures
            r == self.shown(mmap@, off as int),
    {
        match self.overlay.get(&off) {
            Some(v) => *v,
            None => mmap[off],
        }
    }
}


/// Records the change of `off` from `cur` to `val` in the edit records.
fn record_change(
    overlay: &mut HashMap<usize, u8>,
    original_values: &mut HashMap<usize, u8>,
    undo_stack: &mut Vec<UndoEntry>,
    redo_stack: &mut Vec<UndoEntry>,
    modified: &mut ModifiedMap,
    off: usize,
    cur: u8,
    val: u8,
)
    requires
        old(modified).wf(),
        (off as int) < OFFSET_LIMIT,
    ensures
        final(overlay)@ == old(overlay)@.insert(off, val),
        final(original_values)@ == keep_first(old(original_values)@, off, cur),
        final(undo_stack)@ == old(undo_stack)@.push(UndoEntry { offset: off, old: cur, new: val }),
        final(redo_stack)@.len() == 0,
        final(modified).wf(),
        forall|o: int| #[trigger] final(modified).has(o) == (o == off || old(modified).has(o)),
{
    if !original_values.contains_key(&off) {
        original_values.insert(off, cur);
    }
    undo_stack.push(UndoEntry { offset: off, old: cur, new: val });
    redo_stack.clear();
    overlay.insert(off, val);
    modified.mark(off);
}

/// Takes the last entry off `undo_stack`, whose offset lies in the file,
/// shows its old value again in `overlay` and puts it on `redo_stack`.
fn undo_records(
    undo_stack: &mut Vec<UndoEntry>,
    overlay: &mut HashMap<usize, u8>,
    redo_stack: &mut Vec<UndoEntry>,
    mmap: &[u8],
) -> (off: usize)
    requires
        old(undo_stack)@.len() > 0,
        old(undo_stack)@.last().offset < mmap@.len(),
    ensures
        ({
            let e = old(undo_stack)@.last();
            &&& off == e.offset
            &&& final(undo_stack)@ == old(undo_stack)@.drop_last()
            &&& final(overlay)@ == undone_overlay(old(overlay)@, e, mmap@[e.offset as int])
            &&& final(redo_stack)@ == old(redo_stack)@.push(e)
        }),
{
    let e = undo_stack.pop().unwrap();
    let off = e.offset;
    if mmap[off] == e.old {
        overlay.remove(&off);
    } else {
        overlay.insert(off, e.old);
    }
    redo_stack.push(e);
    off
}

/// Whether edits remain: entries to undo, or edited bytes.
fn edits_left(undo_stack: &Vec<UndoEntry>, overlay: &HashMap<usize, u8>) -> (r: bool)
    ensures
        r == edits_remain(undo_stack@, overlay@),
{
    proof {
        reveal(edits_remain);
    }
    undo_stack.len() > 0 || overlay.len() > 0
}

/// Takes the last entry off `redo_stack`, shows its new value again in
/// `overlay` and puts it back on `undo_stack`.
fn redo_records(
    redo_stack: &mut Vec<UndoEntry>,
    overlay: &mut HashMap<usize, u8>,
    undo_stack: &mut Vec<UndoEntry>,
) -> (off: usize)
    requires
        old(redo_stack)@.len() > 0,
    ensures
        ({
            let e = old(redo_stack)@.last();
            &&& off == e.offset
            &&& final(redo_stack)@ == old(redo_stack)@.drop_last()
            &&& final(overlay)@ == old(overlay)@.insert(e.offset, e.new)
            &&& final(undo_stack)@ == old(undo_stack)@.push(e)
        }),
{
    let e = redo_stack.pop().unwrap();
    let off = e.offset;
    overlay.insert(off, e.new);
    undo_stack.push(e);
    off
}

impl App {
    /// Sets the byte at `off` to `val` (see `modified_to`). Reading the byte
    /// back gives `val`; every other byte reads as before.
    pub fn modify(&mut self, mmap: &[u8], off: usize, val: u8)
        requires
            old(self).wf(),
            old(self).file_size <= mmap@.len(),
        ensures
            final(self).wf(),
            App::modified_to(*final(self), *old(self), mmap@, off, val),
            final(self).file_size == old(self).file_size,
            final(self).cursor_byte == old(self).cursor_byte,
            final(self).cursor_nibble == old(self).cursor_nibble,
            off < old(self).file_size ==> final(self).shown(mmap@, off as int) == val,
            forall|o: int| o != off ==> #[trigger] final(self).shown(mmap@, o) == old(self).shown(mmap@, o),
    {
        proof {
            lemma_wf_parts(*self);
            lemma_wf_records(*self);
        }
        if off < self.file_size && self.byte_at(mmap, off) != val {
            let cur = self.byte_at(mmap, off);
            record_change(
                &mut self.overlay,
                &mut self.original_values,
                &mut self.undo_stack,
                &mut self.redo_stack,
                &mut self.modified,
                off,
                cur,
                val,
            );
            self.dirty = true;
            self.last_modified = Some(off);
            assert(*self == (App {
                overlay: self.overlay,
                original_values: self.original_values,
                undo_stack: self.undo_stack,
                redo_stack: self.redo_stack,
                dirty: self.dirty,
                last_modified: self.last_modified,
                modified: self.modified,
                ..*old(self)
            }));
            assert(self.wf()) by {
                lemma_wf_edit(*self, *old(self));
            }
        }
        assert(App::modified_to(*self, *old(self), mmap@, off, val)) by {
            reveal(App::modified_to);
        }
    }

    #[verifier::rlimit(100)]
    fn undo_apply(&mut self, mmap: &[u8])
        requires
            old(self).wf(),
            old(self).undo_stack@.len() > 0,
            old(self).undo_stack@.last().offset < old(self).file_size,
            old(self).file_size <= mmap@.len(),
        ensures
            final(self).wf(),
            App::undone(*final(self), *old(self), mmap@),
    {
        let off = undo_records(&mut self.undo_stack, &mut self.overlay, &mut self.redo_stack, mmap);
        let d = edits_left(&self.undo_stack, &self.overlay);
        self.dirty = d;
        self.last_modified = Some(off);
        assert(App::undone(*self, *old(self), mmap@)) by {
            reveal(App::undone);
        }
        assert(self.wf()) by {
            lemma_wf_same_records(*self, *old(self));
        }
    }

    fn undo_drop(&mut self, mmap: &[u8])
        requires
            old(self).wf(),
            old(self).undo_stack@.len() > 0,
            old(self).undo_stack@.last().offset >= old(self).file_size,
        ensures
            final(self).wf(),
            App::undone(*final(self), *old(self), mmap@),
    {
        self.undo_stack.pop();
        assert(App::undone(*self, *old(self), mmap@)) by {
            reveal(App::undone);
        }
        assert(self.wf()) by {
            lemma_wf_same_records(*self, *old(self));
        }
    }

    /// Undoes the last change (see `undone`).
    pub fn undo(&mut self, mmap: &[u8])
        requires
            old(self).wf(),
            old(self).file_size <= mmap@.len(),
        ensures
            final(self).wf(),
            App::undone(*final(self), *old(self), mmap@),
    {
        let n = self.undo_stack.len();
        if n > 0 {
            if self.undo_stack[n - 1].offset < self.file_size {
                self.undo_apply(mmap);
            } else {
                self.undo_drop(mmap);
            }
        } else {
            assert(App::undone(*self, *old(self), mmap@)) by {
                reveal(App::undone);
            }
        }
    }

    fn redo_apply(&mut self)
        requires
            old(self).wf(),
            old(self).redo_stack@.len() > 0,
            old(self).redo_stack@.last().offset < old(self).file_size,
        ensures
            final(self).wf(),
            App::redone(*final(self), *old(self)),
    {
        let off = redo_records(&mut self.redo_stack, &mut self.overlay, &mut self.undo_stack);
        self.dirty = true;
        self.last_modified = Some(off);
        assert(App::redone(*self, *old(self))) by {
            reveal(App::redone);
        }
        assert(self.wf()) by {
            lemma_wf_same_records(*self, *old(self));
        }
    }

    fn redo_drop(&mut self)
        requires
            old(self).wf(),
            old(self).redo_stack@.len() > 0,
            old(self).redo_stack@.last().offset >= old(self).file_size,
        ensures
            final(self).wf(),
            App::redone(*final(self), *old(self)),
    {
        self.redo_stack.pop();
        assert(App::redone(*self, *old(self))) by {
            reveal(App::redone);
        }
        assert(self.wf()) by {
            lemma_wf_same_records(*self, *old(self));
        }
    }

    /// Redoes the last undone change (see `redone`).
    pub fn redo(&mut self, _mmap: &[u8])
        requires
            old(self).wf(),
        ensures
            final(self).wf(),
            App::redone(*final(self), *old(self)),
    {
        let n = self.redo_stack.len();
        if n > 0 {
            if self.redo_stack[n - 1].offset < self.file_size {
                self.redo_apply();
            } else {
                self.redo_drop();
            }
        } else {
            assert(App::redone(*self, *old(self))) by {
                reveal(App::redone);
            }
        }
    }
}


/// Puts the first value of `off` back: drops it from `original_values`,
/// shows it in `overlay` (no edit left when it is the file's own byte), and
/// clears the record of `off`.
fn restore_records(
    original_values: &mut HashMap<usize, u8>,
    overlay: &mut HashMap<usize, u8>,
    modified: &mut ModifiedMap,
    mmap: &[u8],
    off: usize,
) -> (orig: u8)
    requires
        old(original_values)@.contains_key(off),
        off < mmap@.len(),
        (off as int) < OFFSET_LIMIT,
        old(modified).wf(),
    ensures
        orig == old(original_values)@[off],
        final(original_values)@ == old(original_values)@.remove(off),
        final(overlay)@ == if mmap@[off as int] == orig {
            old(overlay)@.remove(off)
        } else {
            old(overlay)@.insert(off, orig)
        },
        final(modified).wf(),
        forall|o: int| #[trigger] final(modified).has(o) == (o != off && old(modified).has(o)),
{
    let orig = original_values.remove(&off).unwrap();
    if mmap[off] == orig {
        overlay.remove(&off);
    } else {
        overlay.insert(off, orig);
    }
    modified.unmark(off);
    orig
}

/// The UTF-8 encoding of `ch`.
fn utf8_of(ch: char) -> (r: Vec<u8>)
    ensures
        r@ == vstd::utf8::encode_scalar(ch as u32),
{
    let v = ch as u32;
    proof {
        vstd::utf8::char_is_scalar(ch);
    }
    let mut r: Vec<u8> = Vec::new();
    if v <= 0x7F {
        r.push((v & 0x7F) as u8);
    } else if v <= 0x7FF {
        r.push(0xC0 | ((v >> 6) & 0x1F) as u8);
        r.push(0x80 | (v & 0x3F) as u8);
    } else if v <= 0xFFFF {
        r.push(0xE0 | ((v >> 12) & 0x0F) as u8);
        r.push(0x80 | ((v >> 6) & 0x3F) as u8);
        r.push(0x80 | (v & 0x3F) as u8);
    } else {
        r.push(0xF0 | ((v >> 18) & 0x7) as u8);
        r.push(0x80 | ((v >> 12) & 0x3F) as u8);
        r.push(0x80 | ((v >> 6) & 0x3F) as u8);
        r.push(0x80 | (v & 0x3F) as u8);
    }
    proof {
        assert(r@ =~= vstd::utf8::encode_scalar(v));
    }
    r
}

/// The byte after typing hex digit value `nib` over `cur`: the high half
/// when `nibble` is 0, else the low half.
pub open spec fn with_nibble(cur: u8, nib: u8, nibble: usize) -> u8 {
    if nibble == 0 {
        ((cur & 0x0f) | (nib << 4u8)) as u8
    } else {
        ((cur & 0xf0) | nib) as u8
    }
}

impl App {
    /// `new` is `old` after putting the first value of `off` back (over the
    /// file `mmap`): when `off` has one, it is dropped from the first
    /// values, shown again (no edit left when it is the file's own byte), and
    /// `off` is no longer recorded as edited; the undo and redo stacks stay.
    /// Without a first value nothing changes.
    #[verifier::opaque]
    pub open spec fn restored(new: App, old: App, mmap: Seq<u8>, off: usize) -> bool {
        if old.original_values@.contains_key(off) {
            let orig = old.original_values@[off];
            &&& new.original_values@ == old.original_values@.remove(off)
            &&& new.overlay@ == if mmap[off as int] == orig {
                old.overlay@.remove(off)
            } else {
                old.overlay@.insert(off, orig)
            }
            &&& forall|o: int| #[trigger] new.modified.has(o) == (o != off && old.modified.has(o))
            &&& new == (App {
                original_values: new.original_values,
                overlay: new.overlay,
                modified: new.modified,
                ..old
            })
        } else {
            new == old
        }
    }

    /// Puts the byte at `off` back to its value before its first edit (see
    /// `restored`); the byte then reads as that value, every other byte as
    /// before.
    #[verifier::rlimit(60)]
    pub fn restore_at(&mut self, mmap: &[u8], off: usize)
        requires
            old(self).wf(),
            old(self).file_size <= mmap@.len(),
        ensures
            final(self).wf(),
            App::restored(*final(self), *old(self), mmap@, off),
            old(self).original_values@.contains_key(off) ==> final(self).shown(mmap@, off as int)
                == old(self).original_values@[off],
            forall|o: int| o != off ==> #[trigger] final(self).shown(mmap@, o) == old(self).shown(mmap@, o),
    {
        proof {
            lemma_wf_parts(*self);
            lemma_wf_records(*self);
        }
        if self.original_values.contains_key(&off) {
            restore_records(&mut self.original_values, &mut self.overlay, &mut self.modified, mmap, off);
            assert(self.wf()) by {
                lemma_wf_edit(*self, *old(self));
            }
        }
        assert(App::restored(*self, *old(self), mmap@, off)) by {
            reveal(App::restored);
        }
    }

    /// `new` is `old` after typing hex digit value `nib` at the cursor: the
    /// byte under the cursor takes `nib` in the half `cursor_nibble` names
    /// (as `modify` sets it), then the cursor moves to the other half, or to
    /// the next byte (kept on the last byte's low half at the end of the file).
    #[verifier::opaque]
    pub open spec fn hex_typed(new: App, old: App, mmap: Seq<u8>, nib: u8) -> bool {
        let c = old.cursor_byte;
        let b = with_nibble(old.shown(mmap, c as int), nib, old.cursor_nibble);
        let (nb, nn) = if old.cursor_nibble == 0 {
            (c as int, 1int)
        } else if c + 1 < old.file_size {
            (c + 1, 0int)
        } else {
            (old.file_size - 1, 1int)
        };
        exists|mid: App|
            #![trigger App::modified_to(mid, old, mmap, c, b)]
            App::modified_to(mid, old, mmap, c, b) && new == (App {
                cursor_byte: nb as usize,
                cursor_nibble: nn as usize,
                ..mid
            })
    }

    /// Types hex digit `ch` at the cursor: the half of the byte under the
    /// cursor that `cursor_nibble` names takes its value (through `modify`),
    /// then the cursor moves to the other half, or to the next byte (kept on
    /// the last byte's low half at the end of the file). A character that is
    /// not a hex digit, or a cursor past the end, changes nothing.
    pub fn edit_hex(&mut self, mmap: &[u8], ch: char)
        requires
            old(self).wf(),
            old(self).file_size <= mmap@.len(),
        ensures
            final(self).wf(),
            hex_value(ch) is None || old(self).cursor_byte >= old(self).file_size ==> *final(self) == *old(
                self,
            ),
            hex_value(ch) is Some && old(self).cursor_byte < old(self).file_size ==> App::hex_typed(
                *final(self),
                *old(self),
                mmap@,
                hex_value(ch)->0,
            ),
    {
        let nib = match hv(ch) {
            Some(n) => n,
            None => {
                return;
            },
        };
        if self.cursor_byte >= self.file_size {
            return;
        }
        let c = self.cursor_byte;
        let cur = self.byte_at(mmap, c);
        let new = if self.cursor_nibble == 0 {
            (cur & 0x0f) | (nib << 4u8)
        } else {
            (cur & 0xf0) | nib
        };
        let n0 = self.cursor_nibble;
        let (nb, nn) = if n0 == 0 {
            (c, 1)
        } else if c + 1 < self.file_size {
            (c + 1, 0)
        } else {
            (self.file_size - 1, 1)
        };
        self.modify(mmap, c, new);
        let ghost mid = *self;
        self.set_cursor(nb, nn);
        assert(self.wf()) by {
            lemma_wf_same_records(*self, mid);
        }
        assert(new == with_nibble(old(self).shown(mmap@, c as int), nib, n0));
        assert(App::modified_to(mid, *old(self), mmap@, c, new));
        assert(*self == (App { cursor_byte: nb, cursor_nibble: nn, ..mid }));
        assert(App::hex_typed(*self, *old(self), mmap@, nib)) by {
            reveal(App::hex_typed);
        }
    }

    /// The file's contents as shown, with every edit merged in: what saving
    /// writes.
    pub fn merged_bytes(&self, mmap: &[u8]) -> (r: Vec<u8>)
        requires
            self.file_size <= mmap@.len(),
        ensures
            r@ == Seq::new(self.file_size as nat, |i: int| self.shown(mmap@, i)),
    {
        let mut r: Vec<u8> = Vec::new();
        let mut i: usize = 0;
        while i < self.file_size
            invariant
                self.file_size <= mmap@.len(),
                i <= self.file_size,
                r@ == Seq::new(i as nat, |k: int| self.shown(mmap@, k)),
            decreases self.file_size - i,
        {
            let b = self.byte_at(mmap, i);
            r.push(b);
            i += 1;
            assert(r@ =~= Seq::new(i as nat, |k: int| self.shown(mmap@, k)));
        }
        r
    }

    /// Alt+Up and Alt+Down in edit mode: the byte shown under the cursor, one
    /// up (or down), is written there (see `modified_to`), unless the cursor
    /// is past the end or the byte shown is already 0xff (or 0).
    pub fn nudge_byte(&mut self, mmap: &[u8], up: bool)
        requires
            old(self).wf(),
            old(self).file_size <= mmap@.len(),
        ensures
            final(self).wf(),
            ({
                let c = old(self).cursor_byte;
                let v = old(self).shown(mmap@, c as int);
                if c < old(self).file_size && (if up { v < 0xff } else { v > 0 }) {
                    App::modified_to(*final(self), *old(self), mmap@, c, if up {
                        (v + 1) as u8
                    } else {
                        (v - 1) as u8
                    })
                } else {
                    *final(self) == *old(self)
                }
            }),
    {
        let c = self.cursor_byte;
        if c < self.file_size {
            let v = self.byte_at(mmap, c);
            if up && v < 0xff {
                self.modify(mmap, c, v + 1);
                return;
            } else if !up && v > 0 {
                self.modify(mmap, c, v - 1);
                return;
            }
        }
    }

    /// Puts the cursor on byte `b`, half `n`.
    fn set_cursor(&mut self, b: usize, n: usize)
        ensures
            *final(self) == (App { cursor_byte: b, cursor_nibble: n, ..*old(self) }),
    {
        self.cursor_byte = b;
        self.cursor_nibble = n;
    }

    /// Types `ch` at the cursor: its UTF-8 bytes are written one by one
    /// (through `modify`) from the cursor on, as far as the file reaches,
    /// the cursor moving past each; after the whole character the cursor is
    /// kept within the file. Past the end nothing is written.
    pub fn edit_char(&mut self, mmap: &[u8], ch: char)
        requires
            old(self).wf(),
            old(self).file_size <= mmap@.len(),
        ensures
            final(self).wf(),
            final(self).file_size == old(self).file_size,
            ({
                let bytes = vstd::utf8::encode_scalar(ch as u32);
                let c = old(self).cursor_byte;
                let fs = old(self).file_size;
                let n = if c >= fs {
                    0
                } else if c + bytes.len() <= fs {
                    bytes.len() as int
                } else {
                    fs - c
                };
                &&& forall|i: int| 0 <= i < n ==> #[trigger] final(self).shown(mmap@, c + i) == bytes[i]
                &&& forall|o: int| (o < c || o >= c + n) ==> #[trigger] final(self).shown(mmap@, o)
                    == old(self).shown(mmap@, o)
                &&& final(self).undo_stack@ == old(self).undo_stack@ + typed_entries(
                    *old(self),
                    mmap@,
                    c as int,
                    bytes,
                    n,
                )
                &&& (typed_entries(*old(self), mmap@, c as int, bytes, n).len() > 0 ==> final(self).redo_stack@.len() == 0)
                &&& (typed_entries(*old(self), mmap@, c as int, bytes, n).len() == 0 ==> final(self).redo_stack@ == old(self).redo_stack@)
                &&& final(self).cursor_byte == if c >= fs {
                    c as int
                } else if c + bytes.len() <= fs {
                    if c + bytes.len() >= fs {
                        fs - 1
                    } else {
                        c + bytes.len()
                    }
                } else {
                    fs as int
                }
            }),
    {
        let bytes = utf8_of(ch);
        let ghost c = self.cursor_byte as int;
        let ghost start = *self;
        let mut i: usize = 0;
        while i < bytes.len()
            invariant
                self.wf(),
                self.file_size == old(self).file_size,
                self.file_size <= mmap@.len(),
                bytes@ == vstd::utf8::encode_scalar(ch as u32),
                bytes@.len() <= 4,
                c == old(self).cursor_byte,
                i <= bytes@.len(),
                self.cursor_byte == c + i,
                c + i <= self.file_size || i == 0,
                forall|k: int| 0 <= k < i ==> #[trigger] self.shown(mmap@, c + k) == bytes@[k],
                forall|o: int| (o < c || o >= c + i) ==> #[trigger] self.shown(mmap@, o) == old(
                    self,
                ).shown(mmap@, o),
                self.undo_stack@ == old(self).undo_stack@ + typed_entries(*old(self), mmap@, c, bytes@, i as int),
                typed_entries(*old(self), mmap@, c, bytes@, i as int).len() > 0 ==> self.redo_stack@.len() == 0,
                typed_entries(*old(self), mmap@, c, bytes@, i as int).len() == 0 ==> self.redo_stack@ == old(self).redo_stack@,
            decreases bytes@.len() - i,
        {
            if self.cursor_byte >= self.file_size {
                return;
            }
            let at = self.cursor_byte;
            let ghost pre = *self;
            self.modify(mmap, at, bytes[i]);
            let ghost mid = *self;
            proof {
                reveal(App::modified_to);
                assert(pre.shown(mmap@, c + i) == old(self).shown(mmap@, c + i));
                let e = typed_entries(*old(self), mmap@, c, bytes@, i as int);
                if pre.shown(mmap@, c + i) != bytes@[i as int] {
                    assert(typed_entries(*old(self), mmap@, c, bytes@, i + 1) == e.push(
                        UndoEntry { offset: (c + i) as usize, old: pre.shown(mmap@, c + i), new: bytes@[i as int] },
                    ));
                    assert(mid.undo_stack@ =~= old(self).undo_stack@ + typed_entries(*old(self), mmap@, c, bytes@, i + 1));
                } else {
                    assert(typed_entries(*old(self), mmap@, c, bytes@, i + 1) == e);
                }
            }
            self.cursor_byte = at + 1;
            assert(self.overlay == mid.overlay);
            assert(self.wf()) by {
                lemma_wf_same_records(*self, mid);
            }
            proof {
                assert forall|k: int| 0 <= k < i + 1 implies #[trigger] self.shown(mmap@, c + k) == bytes@[k] by {
                    assert(self.shown(mmap@, c + k) == mid.shown(mmap@, c + k));
                    if k < i {
                        assert(mid.shown(mmap@, c + k) == pre.shown(mmap@, c + k));
                    }
                }
                assert forall|o: int| (o < c || o >= c + i + 1) implies #[trigger] self.shown(mmap@, o)
                    == old(self).shown(mmap@, o) by {
                    assert(self.shown(mmap@, o) == mid.shown(mmap@, o));
                    assert(mid.shown(mmap@, o) == pre.shown(mmap@, o));
                }
            }
            i += 1;
        }
        if self.cursor_byte >= self.file_size {
            let ghost mid = *self;
            self.cursor_byte = self.file_size - 1;
            assert(self.overlay == mid.overlay);
            assert(self.wf()) by {
                lemma_wf_same_records(*self, mid);
            }
            proof {
                assert forall|o: int| #[trigger] self.shown(mmap@, o) == mid.shown(mmap@, o) by {
                }
            }
        }
    }
}

/// The undo entries that typing the first `n` bytes of `bytes` from `c`
/// pushes: one for each byte that differs from the byte shown before.
pub open spec fn typed_entries(a: App, mmap: Seq<u8>, c: int, bytes: Seq<u8>, n: int) -> Seq<UndoEntry>
    decreases n,
{
    if n <= 0 {
        seq![]
    } else {
        let prev = typed_entries(a, mmap, c, bytes, n - 1);
        let o = a.shown(mmap, c + n - 1);
        if o != bytes[n - 1] {
            prev.push(UndoEntry { offset: (c + n - 1) as usize, old: o, new: bytes[n - 1] })
        } else {
            prev
        }
    }
}

/// Undoing an edit right after making it shows every byte as before the
/// edit (an edit that changed a byte: one that changed nothing pushes no
/// entry, so an undo then takes back an earlier edit).
pub proof fn lemma_undo_restores(a0: App, a1: App, a2: App, mmap: Seq<u8>, off: usize, val: u8)
    requires
        off < a0.file_size,
        a0.shown(mmap, off as int) != val,
        App::modified_to(a1, a0, mmap, off, val),
        App::undone(a2, a1, mmap),
    ensures
        forall|o: int| #[trigger] a2.shown(mmap, o) == a0.shown(mmap, o),
{
    reveal(App::modified_to);
    reveal(App::undone);
    let cur = a0.shown(mmap, off as int);
    assert(a1.undo_stack@.last() == UndoEntry { offset: off, old: cur, new: val });
    assert forall|o: int| #[trigger] a2.shown(mmap, o) == a0.shown(mmap, o) by {
        if 0 <= o <= usize::MAX && o != off {
            assert(a2.overlay@.contains_key(o as usize) == a0.overlay@.contains_key(o as usize));
        }
    }
}

/// Redoing an edit right after undoing it shows every byte as the edit did,
/// with the undo stack as it was after the edit (for an edit that changed a
/// byte).
pub proof fn lemma_redo_reapplies(
    a0: App,
    a1: App,
    a2: App,
    a3: App,
    mmap: Seq<u8>,
    off: usize,
    val: u8,
)
    requires
        off < a0.file_size,
        a0.shown(mmap, off as int) != val,
        App::modified_to(a1, a0, mmap, off, val),
        App::undone(a2, a1, mmap),
        App::redone(a3, a2),
    ensures
        forall|o: int| #[trigger] a3.shown(mmap, o) == a1.shown(mmap, o),
        a3.undo_stack@ == a1.undo_stack@,
        a3.redo_stack@.len() == 0,
{
    reveal(App::modified_to);
    reveal(App::undone);
    reveal(App::redone);
    let cur = a0.shown(mmap, off as int);
    let e = UndoEntry { offset: off, old: cur, new: val };
    assert(a1.undo_stack@.last() == e);
    assert(a2.redo_stack@.last() == e);
    assert(a3.undo_stack@ =~= a1.undo_stack@);
    assert forall|o: int| #[trigger] a3.shown(mmap, o) == a1.shown(mmap, o) by {
        if 0 <= o <= usize::MAX && o != off {
            assert(a3.overlay@.contains_key(o as usize) == a1.overlay@.contains_key(o as usize));
        }
    }
}

} // verus!
