//! Undoable edits of a pattern's steps and of a session-matrix slot.
//!
//! Each edit records the value it replaces, so reverting it puts that value
//! back. The pattern or slot an edit names (by pattern key, or by row key
//! and column) is found by the caller; here the edit acts on it.

use crate::history::EditCommand;
use crate::matrix::{Clip, PatternSource};
use crate::note::Note;
use crate::pattern::{clamp_int, is_blank, Pattern};
use crate::arrangement::clone_opt_string;
use crate::channel::Pan;
use vstd::prelude::*;
use vstd::string::*;

verus! {

/// A numeric field of a note.
#[derive(Debug, Clone, Copy, PartialEq, Eq, Structural)]
pub enum NoteField {
    Velocity,
    Gate,
    Micro,
    Cc01,
    Cc74,
    Prob,
}

/// The range a field's value is kept in.
pub open spec fn field_range(f: NoteField) -> (int, int) {
    match f {
        NoteField::Velocity => (0, 127),
        NoteField::Gate => (10, 400),
        NoteField::Micro => (-99, 99),
        NoteField::Cc01 => (0, 127),
        NoteField::Cc74 => (0, 127),
        NoteField::Prob => (0, 100),
    }
}

/// The value of field `f` of `n`.
pub open spec fn field_value(n: Note, f: NoteField) -> int {
    match f {
        NoteField::Velocity => n.velocity as int,
        NoteField::Gate => n.gate as int,
        NoteField::Micro => n.micro as int,
        NoteField::Cc01 => n.cc01 as int,
        NoteField::Cc74 => n.cc74 as int,
        NoteField::Prob => n.prob as int,
    }
}

/// `n` with field `f` set to `v` clamped into the field's range.
pub open spec fn with_field(n: Note, f: NoteField, v: int) -> Note {
    let c = clamp_int(v, field_range(f).0, field_range(f).1);
    match f {
        NoteField::Velocity => Note { velocity: c as u8, ..n },
        NoteField::Gate => Note { gate: c as u16, ..n },
        NoteField::Micro => Note { micro: c as i8, ..n },
        NoteField::Cc01 => Note { cc01: c as u8, ..n },
        NoteField::Cc74 => Note { cc74: c as u8, ..n },
        NoteField::Prob => Note { prob: c as u8, ..n },
    }
}

fn clamp_i32(v: i32, lo: i32, hi: i32) -> (r: i32)
    requires
        lo <= hi,
    ensures
        r == clamp_int(v as int, lo as int, hi as int),
{
    if v < lo {
        lo
    } else if v > hi {
        hi
    } else {
        v
    }
}

/// Set field `field` of `n` to `val`, clamped into the field's range.
pub fn set_note_field(n: &mut Note, field: NoteField, val: i32)
    ensures
        *final(n) == with_field(*old(n), field, val as int),
{
    match field {
        NoteField::Velocity => n.velocity = clamp_i32(val, 0, 127) as u8,
        NoteField::Gate => n.gate = clamp_i32(val, 10, 400) as u16,
        NoteField::Micro => n.micro = clamp_i32(val, -99, 99) as i8,
        NoteField::Cc01 => n.cc01 = clamp_i32(val, 0, 127) as u8,
        NoteField::Cc74 => n.cc74 = clamp_i32(val, 0, 127) as u8,
        NoteField::Prob => n.prob = clamp_i32(val, 0, 100) as u8,
    }
}

/// The steps after setting field `f` of step `step` to `v` (unchanged when
/// there is no such step).
pub open spec fn steps_with_field(steps: Seq<Note>, step: int, f: NoteField, v: int) -> Seq<Note> {
    if 0 <= step < steps.len() {
        steps.update(step, with_field(steps[step], f, v))
    } else {
        steps
    }
}

/// Setting one numeric field of one step of the pattern named
/// `pattern_key`, from `old` to `new`.
#[derive(Debug)]
pub struct SetNoteField {
    pub pattern_key: String,
    pub step: usize,
    pub field: NoteField,
    pub old: i32,
    pub new: i32,
}

fn edit_field(pat: &mut Pattern, step: usize, field: NoteField, val: i32)
    ensures
        final(pat).steps@ == steps_with_field(old(pat).steps@, step as int, field, val as int),
        final(pat).same_settings(*old(pat)),
{
    if step < pat.steps.len() {
        set_note_field(&mut pat.steps[step], field, val);
    }
}

impl SetNoteField {
    /// Set the field to `new`.
    pub fn apply_to(&self, pat: &mut Pattern)
        ensures
            final(pat).steps@ == steps_with_field(old(pat).steps@, self.step as int, self.field, self.new as int),
            final(pat).same_settings(*old(pat)),
    {
        edit_field(pat, self.step, self.field, self.new);
    }

    /// Set the field back to `old`.
    pub fn revert_on(&self, pat: &mut Pattern)
        ensures
            final(pat).steps@ == steps_with_field(old(pat).steps@, self.step as int, self.field, self.old as int),
            final(pat).same_settings(*old(pat)),
    {
        edit_field(pat, self.step, self.field, self.old);
    }
}

impl EditCommand<Pattern> for SetNoteField {
    open spec fn applied(&self, before: Pattern, after: Pattern) -> bool {
        after.steps@ == steps_with_field(before.steps@, self.step as int, self.field, self.new as int) && after.same_settings(before)
    }

    open spec fn reverted(&self, before: Pattern, after: Pattern) -> bool {
        after.steps@ == steps_with_field(before.steps@, self.step as int, self.field, self.old as int) && after.same_settings(before)
    }

    open spec fn describes(&self) -> Seq<char> {
        "Edit note field"@
    }

    fn apply(&self, doc: &mut Pattern) {
        self.apply_to(doc);
    }

    fn revert(&self, doc: &mut Pattern) {
        self.revert_on(doc);
    }

    fn description(&self) -> &str {
        "Edit note field"
    }
}

/// Reverting a field edit after applying it gives back the steps, when the
/// edit recorded the field's value as it was (a value within the field's
/// range).
pub proof fn lemma_note_field_revert_undoes_apply(c: SetNoteField, steps: Seq<Note>)
    requires
        c.step < steps.len() ==> field_value(steps[c.step as int], c.field) == c.old,
        c.step < steps.len() ==> field_range(c.field).0 <= c.old <= field_range(c.field).1,
    ensures
        steps_with_field(steps_with_field(steps, c.step as int, c.field, c.new as int), c.step as int, c.field, c.old as int)
            == steps,
{
    let s1 = steps_with_field(steps, c.step as int, c.field, c.new as int);
    let s2 = steps_with_field(s1, c.step as int, c.field, c.old as int);
    if c.step < steps.len() {
        let i = c.step as int;
        assert(s2[i] == steps[i]);
        assert(s2 =~= steps);
    }
}

/// `a` and `b` hold the same notes: equal, or alike as copies.
pub open spec fn same_notes(a: Seq<Note>, b: Seq<Note>) -> bool {
    &&& a.len() == b.len()
    &&& forall|i: int| 0 <= i < a.len() ==> (#[trigger] a[i]).same_as(b[i])
}

/// Replacing step `step` of the pattern named `pattern_key`: `old` is the
/// note it held, `new` the note it gets.
#[derive(Debug)]
pub struct SetNote {
    pub pattern_key: String,
    pub step: usize,
    pub old: Note,
    pub new: Note,
}

fn put_note(pat: &mut Pattern, step: usize, note: &Note)
    ensures
        final(pat).steps@.len() == old(pat).steps@.len(),
        forall|i: int| 0 <= i < old(pat).steps@.len() && i != step ==> final(pat).steps@[i] == old(pat).steps@[i],
        step < old(pat).steps@.len() ==> final(pat).steps@[step as int].same_as(*note),
        final(pat).same_settings(*old(pat)),
{
    if step < pat.steps.len() {
        pat.steps.set(step, note.clone());
    }
}

impl SetNote {
    /// Put `new` at the step (nothing happens past the pattern's end).
    pub fn apply_to(&self, pat: &mut Pattern)
        ensures
            final(pat).steps@.len() == old(pat).steps@.len(),
            forall|i: int| 0 <= i < old(pat).steps@.len() && i != self.step ==> final(pat).steps@[i] == old(pat).steps@[i],
            self.step < old(pat).steps@.len() ==> final(pat).steps@[self.step as int].same_as(self.new),
            final(pat).same_settings(*old(pat)),
    {
        put_note(pat, self.step, &self.new);
    }

    /// Put `old` back at the step.
    pub fn revert_on(&self, pat: &mut Pattern)
        ensures
            final(pat).steps@.len() == old(pat).steps@.len(),
            forall|i: int| 0 <= i < old(pat).steps@.len() && i != self.step ==> final(pat).steps@[i] == old(pat).steps@[i],
            self.step < old(pat).steps@.len() ==> final(pat).steps@[self.step as int].same_as(self.old),
            final(pat).same_settings(*old(pat)),
    {
        put_note(pat, self.step, &self.old);
    }
}

impl EditCommand<Pattern> for SetNote {
    open spec fn applied(&self, before: Pattern, after: Pattern) -> bool {
        note_put(before.steps@, after.steps@, self.step as int, self.new) && after.same_settings(before)
    }

    open spec fn reverted(&self, before: Pattern, after: Pattern) -> bool {
        note_put(before.steps@, after.steps@, self.step as int, self.old) && after.same_settings(before)
    }

    open spec fn describes(&self) -> Seq<char> {
        "Set note"@
    }

    fn apply(&self, doc: &mut Pattern) {
        self.apply_to(doc);
    }

    fn revert(&self, doc: &mut Pattern) {
        self.revert_on(doc);
    }

    fn description(&self) -> &str {
        "Set note"
    }
}

/// Steps `after` are steps `before` with step `step` holding a copy of `n`
/// (unchanged past the end).
pub open spec fn note_put(before: Seq<Note>, after: Seq<Note>, step: int, n: Note) -> bool {
    &&& after.len() == before.len()
    &&& forall|i: int| 0 <= i < before.len() && i != step ==> after[i] == before[i]
    &&& (0 <= step < before.len() ==> after[step].same_as(n))
}

/// Putting a note and then putting back the note the step held leaves the
/// same notes as before.
pub proof fn lemma_set_note_revert_undoes_apply(
    before: Seq<Note>,
    applied: Seq<Note>,
    reverted: Seq<Note>,
    step: int,
    old_note: Note,
    new_note: Note,
)
    requires
        note_put(before, applied, step, new_note),
        note_put(applied, reverted, step, old_note),
        0 <= step < before.len() ==> before[step].same_as(old_note),
    ensures
        same_notes(reverted, before),
{
    assert forall|i: int| 0 <= i < reverted.len() implies (#[trigger] reverted[i]).same_as(before[i]) by {
        if i != step {
            assert(reverted[i] == before[i]);
            lemma_note_alike_itself(before[i]);
        }
    }
}

/// A note is alike itself.
proof fn lemma_note_alike_itself(n: Note)
    ensures
        n.same_as(n),
{
}

/// Turning the clip at row `row_key`, column `col` on or off.
#[derive(Debug)]
pub struct ToggleClipEnabled {
    pub row_key: String,
    pub col: usize,
}

/// The slot with its clip (if any) switched on or off.
pub open spec fn toggled(slot: Option<Clip>) -> Option<Clip> {
    match slot {
        Some(c) => Some(Clip { enabled: !c.enabled, ..c }),
        None => None,
    }
}

impl ToggleClipEnabled {
    /// Flip the clip's enabled flag; an empty slot stays empty.
    pub fn apply_to(&self, slot: &mut Option<Clip>)
        ensures
            *final(slot) == toggled(*old(slot)),
    {
        if let Some(c) = slot {
            c.enabled = !c.enabled;
        }
    }
}

impl EditCommand<Option<Clip>> for ToggleClipEnabled {
    open spec fn applied(&self, before: Option<Clip>, after: Option<Clip>) -> bool {
        after == toggled(before)
    }

    open spec fn reverted(&self, before: Option<Clip>, after: Option<Clip>) -> bool {
        after == toggled(before)
    }

    open spec fn describes(&self) -> Seq<char> {
        "Toggle clip"@
    }

    fn apply(&self, doc: &mut Option<Clip>) {
        self.apply_to(doc);
    }

    /// Toggling is its own inverse.
    fn revert(&self, doc: &mut Option<Clip>) {
        self.apply_to(doc);
    }

    fn description(&self) -> &str {
        "Toggle clip"
    }
}

/// Toggling twice gives back the slot.
pub proof fn lemma_toggle_twice(slot: Option<Clip>)
    ensures
        toggled(toggled(slot)) == slot,
{
}

/// Routing the clip at row `row_key`, column `col` to another MIDI output
/// port: `old` is the port it had.
#[derive(Debug)]
pub struct SetClipMidiOut {
    pub row_key: String,
    pub col: usize,
    pub old: Option<String>,
    pub new: Option<String>,
}

/// The slot with its clip (if any) routed to `port`.
pub open spec fn routed(slot: Option<Clip>, port: Option<String>) -> Option<Clip> {
    match slot {
        Some(c) => Some(Clip { midi_out: port, ..c }),
        None => None,
    }
}

impl SetClipMidiOut {
    /// Route the clip to `new`; an empty slot stays empty.
    pub fn apply_to(&self, slot: &mut Option<Clip>)
        ensures
            *final(slot) == routed(*old(slot), self.new),
    {
        if let Some(c) = slot {
            c.midi_out = clone_opt_string(&self.new);
        }
    }

    /// Route the clip back to `old`.
    pub fn revert_on(&self, slot: &mut Option<Clip>)
        ensures
            *final(slot) == routed(*old(slot), self.old),
    {
        if let Some(c) = slot {
            c.midi_out = clone_opt_string(&self.old);
        }
    }
}

impl EditCommand<Option<Clip>> for SetClipMidiOut {
    open spec fn applied(&self, before: Option<Clip>, after: Option<Clip>) -> bool {
        after == routed(before, self.new)
    }

    open spec fn reverted(&self, before: Option<Clip>, after: Option<Clip>) -> bool {
        after == routed(before, self.old)
    }

    open spec fn describes(&self) -> Seq<char> {
        "Set MIDI out"@
    }

    fn apply(&self, doc: &mut Option<Clip>) {
        self.apply_to(doc);
    }

    fn revert(&self, doc: &mut Option<Clip>) {
        self.revert_on(doc);
    }

    fn description(&self) -> &str {
        "Set MIDI out"
    }
}

/// Routing a clip elsewhere and back gives back the slot, when the edit
/// recorded the port the clip had.
pub proof fn lemma_midi_out_revert_undoes_apply(c: SetClipMidiOut, slot: Option<Clip>)
    requires
        slot matches Some(clip) ==> clip.midi_out == c.old,
    ensures
        routed(routed(slot, c.new), c.old) == slot,
{
}

/// Changing the length of the pattern named `pattern_key` from `old` to
/// `new` steps.
#[derive(Debug)]
pub struct SetPatternLength {
    pub pattern_key: String,
    pub old: usize,
    pub new: usize,
}

/// Steps `after` are steps `before` cut or padded with blank steps to `len`.
pub open spec fn resized(before: Seq<Note>, after: Seq<Note>, len: int) -> bool {
    &&& after.len() == len
    &&& forall|i: int| 0 <= i < len && i < before.len() ==> after[i] == before[i]
    &&& forall|i: int| before.len() <= i < len ==> is_blank(#[trigger] after[i])
}

fn set_length(pat: &mut Pattern, len: usize)
    ensures
        final(pat).length == len,
        resized(old(pat).steps@, final(pat).steps@, len as int),
        (Pattern { length: old(pat).length, ..*final(pat) }).same_settings(*old(pat)),
{
    pat.length = len;
    let blank = Note::default();
    let ghost b = blank;
    pat.steps.resize(len, blank);
    proof {
        assert forall|i: int| old(pat).steps@.len() <= i < len implies is_blank(#[trigger] pat.steps@[i]) by {
            assert(vstd::pervasive::cloned::<Note>(b, pat.steps@[i]));
            assert(pat.steps@[i].same_as(b));
        }
        assert forall|i: int| 0 <= i < len && i < old(pat).steps@.len() implies pat.steps@[i] == old(pat).steps@[i] by {
            if len <= old(pat).steps@.len() {
                assert(pat.steps@ == old(pat).steps@.subrange(0, len as int));
            } else {
                assert(pat.steps@.subrange(0, old(pat).steps@.len() as int) == old(pat).steps@);
                assert(pat.steps@[i] == pat.steps@.subrange(0, old(pat).steps@.len() as int)[i]);
            }
        }
    }
}

impl SetPatternLength {
    /// Make the pattern `new` steps long, dropping steps past the end or
    /// adding blank ones.
    pub fn apply_to(&self, pat: &mut Pattern)
        ensures
            final(pat).length == self.new,
            resized(old(pat).steps@, final(pat).steps@, self.new as int),
            (Pattern { length: old(pat).length, ..*final(pat) }).same_settings(*old(pat)),
    {
        set_length(pat, self.new);
    }

    /// Make the pattern `old` steps long again.
    pub fn revert_on(&self, pat: &mut Pattern)
        ensures
            final(pat).length == self.old,
            resized(old(pat).steps@, final(pat).steps@, self.old as int),
            (Pattern { length: old(pat).length, ..*final(pat) }).same_settings(*old(pat)),
    {
        set_length(pat, self.old);
    }
}

impl EditCommand<Pattern> for SetPatternLength {
    open spec fn applied(&self, before: Pattern, after: Pattern) -> bool {
        &&& after.length == self.new
        &&& resized(before.steps@, after.steps@, self.new as int)
        &&& (Pattern { length: before.length, ..after }).same_settings(before)
    }

    open spec fn reverted(&self, before: Pattern, after: Pattern) -> bool {
        &&& after.length == self.old
        &&& resized(before.steps@, after.steps@, self.old as int)
        &&& (Pattern { length: before.length, ..after }).same_settings(before)
    }

    open spec fn describes(&self) -> Seq<char> {
        "Set pattern length"@
    }

    fn apply(&self, doc: &mut Pattern) {
        self.apply_to(doc);
    }

    fn revert(&self, doc: &mut Pattern) {
        self.revert_on(doc);
    }

    fn description(&self) -> &str {
        "Set pattern length"
    }
}

/// Changing a pattern's length and back keeps every step it kept, and the
/// steps it dropped come back blank: nothing is lost when those were blank.
pub proof fn lemma_length_revert_undoes_apply(
    before: Seq<Note>,
    applied: Seq<Note>,
    reverted: Seq<Note>,
    old_len: int,
    new_len: int,
)
    requires
        before.len() == old_len,
        0 <= new_len,
        resized(before, applied, new_len),
        resized(applied, reverted, old_len),
        forall|i: int| new_len <= i < old_len ==> is_blank(#[trigger] before[i]),
    ensures
        reverted.len() == before.len(),
        forall|i: int| 0 <= i < old_len ==> #[trigger] reverted[i] == before[i] || (is_blank(reverted[i]) && is_blank(before[i])),
{
    assert forall|i: int| 0 <= i < old_len implies #[trigger] reverted[i] == before[i] || (is_blank(reverted[i]) && is_blank(before[i])) by {
        if i < new_len {
            assert(applied[i] == before[i]);
            assert(reverted[i] == applied[i]);
        } else {
            assert(is_blank(reverted[i]));
        }
    }
}

/// Moving the clip at row `from_key`, column `from_col` to row `to_key`,
/// column `to_col`, swapping it with whatever clip was there.
#[derive(Debug)]
pub struct SwapClips {
    pub from_key: String,
    pub from_col: usize,
    pub to_key: String,
    pub to_col: usize,
}

/// The two slots after moving the clip of the first into the second: a
/// swap when the first holds a clip, no change when it is empty.
pub open spec fn moved(from: Option<Clip>, to: Option<Clip>) -> (Option<Clip>, Option<Clip>) {
    if from.is_some() {
        (to, from)
    } else {
        (from, to)
    }
}

fn move_clip(from: &mut Option<Clip>, to: &mut Option<Clip>)
    ensures
        (*final(from), *final(to)) == moved(*old(from), *old(to)),
{
    if from.is_some() {
        std::mem::swap(from, to);
    }
}

impl SwapClips {
    /// Move the clip from its slot (`from`) to the other (`to`).
    pub fn apply_to(&self, from: &mut Option<Clip>, to: &mut Option<Clip>)
        ensures
            (*final(from), *final(to)) == moved(*old(from), *old(to)),
    {
        move_clip(from, to);
    }

    /// Move the clip back: from `to` to `from`.
    pub fn revert_on(&self, from: &mut Option<Clip>, to: &mut Option<Clip>)
        ensures
            (*final(to), *final(from)) == moved(*old(to), *old(from)),
    {
        move_clip(to, from);
    }
}

/// Moving a clip and moving it back gives back both slots.
pub proof fn lemma_swap_revert_undoes_apply(from: Option<Clip>, to: Option<Clip>)
    requires
        from.is_some(),
    ensures
        ({
            let (f1, t1) = moved(from, to);
            let (t2, f2) = moved(t1, f1);
            f2 == from && t2 == to
        }),
{
}

/// Removing the clip at row `row_key`, column `col`: `old_clip` is what the
/// slot held.
#[derive(Debug)]
pub struct DeleteClip {
    pub row_key: String,
    pub col: usize,
    pub old_clip: Option<Clip>,
}

impl DeleteClip {
    /// Empty the slot.
    pub fn apply_to(&self, slot: &mut Option<Clip>)
        ensures
            final(slot).is_none(),
    {
        *slot = None;
    }

    /// Put the removed clip back.
    pub fn revert_on(&self, slot: &mut Option<Clip>)
        ensures
            *final(slot) == self.old_clip,
    {
        *slot = match &self.old_clip {
            Some(c) => Some(c.clone()),
            None => None,
        };
    }
}

impl EditCommand<Option<Clip>> for DeleteClip {
    open spec fn applied(&self, before: Option<Clip>, after: Option<Clip>) -> bool {
        after.is_none()
    }

    open spec fn reverted(&self, before: Option<Clip>, after: Option<Clip>) -> bool {
        after == self.old_clip
    }

    open spec fn describes(&self) -> Seq<char> {
        "Delete clip"@
    }

    fn apply(&self, doc: &mut Option<Clip>) {
        self.apply_to(doc);
    }

    fn revert(&self, doc: &mut Option<Clip>) {
        self.revert_on(doc);
    }

    fn description(&self) -> &str {
        "Delete clip"
    }
}

/// Adding pattern `pattern` under `key` and a clip playing it at row
/// `row_key`, column `col`.
#[derive(Debug)]
pub struct CreatePattern {
    pub key: String,
    pub pattern: Pattern,
    pub row_key: String,
    pub col: usize,
}

impl CreatePattern {
    /// Put a clip named `key`, playing pattern `key`, into column `col` of
    /// the row (nothing past the row's end).
    pub fn place_clip(&self, row: &mut Vec<Option<Clip>>)
        ensures
            final(row)@.len() == old(row)@.len(),
            forall|i: int| 0 <= i < old(row)@.len() && i != self.col ==> final(row)@[i] == old(row)@[i],
            self.col < old(row)@.len() ==> (final(row)@[self.col as int] matches Some(c) && c.name == self.key
                && c.pattern_key == Some(self.key) && c.row == 0 && c.col == self.col && c.enabled && !c.playing
                && c.current_step == 0 && c.midi_out.is_none() && c.midi_channel == 1 && c.source is Midi
                && c.mpe_zone.is_none() && !c.frozen && c.freeze_source.is_none()),
    {
        if self.col < row.len() {
            let c = Clip::new(self.key.clone(), 0, self.col).with_pattern(self.key.clone());
            row.set(self.col, Some(c));
        }
    }

    /// Empty column `col` of the row again.
    pub fn clear_clip(&self, row: &mut Vec<Option<Clip>>)
        ensures
            final(row)@.len() == old(row)@.len(),
            forall|i: int| 0 <= i < old(row)@.len() && i != self.col ==> final(row)@[i] == old(row)@[i],
            self.col < old(row)@.len() ==> final(row)@[self.col as int].is_none(),
    {
        if self.col < row.len() {
            row.set(self.col, None);
        }
    }
}

/// Renaming pattern `old_key` to `new_key`, with every clip that names it.
#[derive(Debug)]
pub struct RenamePattern {
    pub old_key: String,
    pub new_key: String,
}

/// The name a clip or pattern called `name` has after renaming `from` to
/// `to`.
pub open spec fn renamed(name: Seq<char>, from: Seq<char>, to: Seq<char>) -> Seq<char> {
    if name == from {
        to
    } else {
        name
    }
}

/// The view of an optional pattern key.
pub open spec fn key_view(k: Option<String>) -> Option<Seq<char>> {
    match k {
        Some(s) => Some(s@),
        None => None,
    }
}

/// Clip `after` is clip `before` with its name and pattern key renamed.
pub open spec fn clip_renamed(before: Clip, after: Clip, from: Seq<char>, to: Seq<char>) -> bool {
    &&& after.name@ == renamed(before.name@, from, to)
    &&& key_view(after.pattern_key) == match key_view(before.pattern_key) {
        Some(k) => Some(renamed(k, from, to)),
        None => None,
    }
    &&& (Clip { name: before.name, pattern_key: before.pattern_key, ..after }) == before
}

fn rename_clip(c: &mut Clip, from: &str, to: &str)
    ensures
        clip_renamed(*old(c), *final(c), from@, to@),
{
    if crate::sched::str_eq(c.name.as_str(), from) {
        c.name = String::from_str(to);
    }
    let renames_key = match &c.pattern_key {
        Some(k) => crate::sched::str_eq(k.as_str(), from),
        None => false,
    };
    if renames_key {
        c.pattern_key = Some(String::from_str(to));
    }
}

impl RenamePattern {
    /// Rename the clip in a slot (an empty slot stays empty).
    pub fn apply_to_slot(&self, slot: &mut Option<Clip>)
        ensures
            match (*old(slot), *final(slot)) {
                (Some(a), Some(b)) => clip_renamed(a, b, self.old_key@, self.new_key@),
                (None, None) => true,
                _ => false,
            },
    {
        if let Some(c) = slot {
            rename_clip(c, self.old_key.as_str(), self.new_key.as_str());
        }
    }

    /// Rename the clip in a slot back.
    pub fn revert_on_slot(&self, slot: &mut Option<Clip>)
        ensures
            match (*old(slot), *final(slot)) {
                (Some(a), Some(b)) => clip_renamed(a, b, self.new_key@, self.old_key@),
                (None, None) => true,
                _ => false,
            },
    {
        if let Some(c) = slot {
            rename_clip(c, self.new_key.as_str(), self.old_key.as_str());
        }
    }

    /// The renamed pattern takes its new name.
    pub fn rename_pattern(&self, pat: &mut Pattern)
        ensures
            final(pat).name@ == self.new_key@,
            final(pat).steps == old(pat).steps,
            (Pattern { name: old(pat).name, ..*final(pat) }) == *old(pat),
    {
        pat.name = self.new_key.clone();
    }

    /// The pattern takes its old name back.
    pub fn unrename_pattern(&self, pat: &mut Pattern)
        ensures
            final(pat).name@ == self.old_key@,
            final(pat).steps == old(pat).steps,
            (Pattern { name: old(pat).name, ..*final(pat) }) == *old(pat),
    {
        pat.name = self.old_key.clone();
    }
}

/// Renaming and renaming back gives a clip its name and pattern key again,
/// when the clip did not already name the new key.
pub proof fn lemma_rename_revert_undoes_apply(before: Clip, mid: Clip, after: Clip, from: Seq<char>, to: Seq<char>)
    requires
        clip_renamed(before, mid, from, to),
        clip_renamed(mid, after, to, from),
        from != to ==> before.name@ != to,
        from != to ==> key_view(before.pattern_key) != Some(to),
    ensures
        after.name@ == before.name@,
        key_view(after.pattern_key) == key_view(before.pattern_key),
        (Clip { name: before.name, pattern_key: before.pattern_key, ..after }) == before,
{
}

/// Changing what drives the clip at row `row_key`, column `col` from `old`
/// to `new`; `clip_existed` tells whether the slot held a clip (an empty
/// slot gets a new clip, which undoing removes).
#[derive(Debug)]
pub struct SetClipSource {
    pub row_key: String,
    pub col: usize,
    pub old: PatternSource,
    pub new: PatternSource,
    pub clip_existed: bool,
}

/// The row a row key stands for: its first character's byte counted from
/// `A` (wrapping), 0 for an empty key.
pub open spec fn row_index_of(key: Seq<char>) -> usize {
    if key.len() == 0 {
        0
    } else {
        (((key[0] as u8) as int - 65) % 256) as usize
    }
}

impl SetClipSource {
    /// The row of the edited slot.
    pub fn row_index(&self) -> (r: usize)
        ensures
            r == row_index_of(self.row_key@),
    {
        if self.row_key.unicode_len() == 0 {
            0
        } else {
            let c = self.row_key.get_char(0);
            let b = c as u8;
            b.wrapping_sub(65u8) as usize
        }
    }

    /// Driving the clip by `new` takes slot `before` to `after`: a clip keeps
    /// all but its source; an empty slot gets a new enabled clip named `""`
    /// at this edit's row and column.
    pub open spec fn source_applied(&self, before: Option<Clip>, after: Option<Clip>) -> bool {
        match before {
            Some(_) => after == with_source(before, self.new),
            None => after matches Some(c) && c.name@ == Seq::<char>::empty() && c.pattern_key.is_none()
                && c.row == row_index_of(self.row_key@) && c.col == self.col && c.enabled && !c.playing
                && c.current_step == 0 && c.midi_out.is_none() && c.midi_channel == 1 && c.source == self.new
                && c.mpe_zone.is_none() && !c.frozen && c.freeze_source.is_none(),
        }
    }

    /// Undoing takes slot `before` to `after`: back to `old` when the clip
    /// existed, else an empty slot.
    pub open spec fn source_reverted(&self, before: Option<Clip>, after: Option<Clip>) -> bool {
        &&& self.clip_existed ==> after == with_source(before, self.old)
        &&& !self.clip_existed ==> after.is_none()
    }

    /// Drive the clip by `new`, making a clip in an empty slot.
    pub fn apply_to(&self, slot: &mut Option<Clip>)
        ensures
            self.source_applied(*old(slot), *final(slot)),
    {
        let src = self.new.clone();
        match slot {
            Some(c) => {
                c.source = src;
            },
            None => {
                let mut c = Clip::new(String::new(), self.row_index(), self.col);
                c.source = src;
                *slot = Some(c);
            },
        }
    }

    /// Undo: drive the clip by `old` again, or empty the slot when the clip
    /// was made by the edit.
    pub fn revert_on(&self, slot: &mut Option<Clip>)
        ensures
            self.source_reverted(*old(slot), *final(slot)),
    {
        if self.clip_existed {
            if let Some(c) = slot {
                c.source = self.old.clone();
            }
        } else {
            *slot = None;
        }
    }
}

impl EditCommand<Option<Clip>> for SetClipSource {
    open spec fn applied(&self, before: Option<Clip>, after: Option<Clip>) -> bool {
        self.source_applied(before, after)
    }

    open spec fn reverted(&self, before: Option<Clip>, after: Option<Clip>) -> bool {
        self.source_reverted(before, after)
    }

    open spec fn describes(&self) -> Seq<char> {
        "Set clip source"@
    }

    fn apply(&self, doc: &mut Option<Clip>) {
        self.apply_to(doc);
    }

    fn revert(&self, doc: &mut Option<Clip>) {
        self.revert_on(doc);
    }

    fn description(&self) -> &str {
        "Set clip source"
    }
}

/// The slot with its clip (if any) driven by `src`.
pub open spec fn with_source(slot: Option<Clip>, src: PatternSource) -> Option<Clip> {
    match slot {
        Some(c) => Some(Clip { source: src, ..c }),
        None => None,
    }
}

/// Changing a clip's source and back gives back the clip, when the edit
/// recorded the source the clip had.
pub proof fn lemma_clip_source_revert_undoes_apply(c: SetClipSource, slot: Option<Clip>)
    requires
        slot matches Some(clip) && clip.source == c.old,
    ensures
        with_source(with_source(slot, c.new), c.old) == slot,
{
}

// ─── SetChannelParam ────────────────────────────────────────────────────────

/// Which mixer channel parameter is being changed.
#[derive(Debug, Clone, Copy, PartialEq, Eq, Structural)]
pub enum ChannelParam {
    Volume,
    Pan,
    EqLow,
    EqLowMid,
    EqHighMid,
    EqHigh,
    FxAmount,
}

/// The value a mixer channel parameter takes: the volume in tenths of a
/// decibel (the channel's volume is this over ten), the pan position, an EQ
/// band's gain in dB or the effect amount.
#[derive(Debug, Clone, Copy, PartialEq, Eq, Structural)]
pub enum ChannelSetting {
    VolumeTenths(i32),
    Pan(Pan),
    EqLow(i8),
    EqLowMid(i8),
    EqHighMid(i8),
    EqHigh(i8),
    FxAmount(u8),
}

/// The pan position of a stored value in `-50..=50`.
pub open spec fn pan_of(v: int) -> Pan {
    if v < 0 {
        Pan::Left((-v) as u8)
    } else if v == 0 {
        Pan::Center
    } else {
        Pan::Right(v as u8)
    }
}

/// The setting stored value `val` gives parameter `param`: the pan clamped
/// to `-50..=50`, EQ gains to `-12..=12`, the effect amount to `0..=127`; the
/// volume's tenths as they are.
pub open spec fn setting_spec(param: ChannelParam, val: i32) -> ChannelSetting {
    match param {
        ChannelParam::Volume => ChannelSetting::VolumeTenths(val),
        ChannelParam::Pan => ChannelSetting::Pan(pan_of(clamp_int(val as int, -50, 50))),
        ChannelParam::EqLow => ChannelSetting::EqLow(clamp_int(val as int, -12, 12) as i8),
        ChannelParam::EqLowMid => ChannelSetting::EqLowMid(clamp_int(val as int, -12, 12) as i8),
        ChannelParam::EqHighMid => ChannelSetting::EqHighMid(clamp_int(val as int, -12, 12) as i8),
        ChannelParam::EqHigh => ChannelSetting::EqHigh(clamp_int(val as int, -12, 12) as i8),
        ChannelParam::FxAmount => ChannelSetting::FxAmount(clamp_int(val as int, 0, 127) as u8),
    }
}

/// Build [`setting_spec`].
pub fn channel_setting(param: ChannelParam, val: i32) -> (r: ChannelSetting)
    ensures
        r == setting_spec(param, val),
{
    match param {
        ChannelParam::Volume => ChannelSetting::VolumeTenths(val),
        ChannelParam::Pan => ChannelSetting::Pan(Pan::from_val(clamp_i32(val, -50, 50) as i8)),
        ChannelParam::EqLow => ChannelSetting::EqLow(clamp_i32(val, -12, 12) as i8),
        ChannelParam::EqLowMid => ChannelSetting::EqLowMid(clamp_i32(val, -12, 12) as i8),
        ChannelParam::EqHighMid => ChannelSetting::EqHighMid(clamp_i32(val, -12, 12) as i8),
        ChannelParam::EqHigh => ChannelSetting::EqHigh(clamp_i32(val, -12, 12) as i8),
        ChannelParam::FxAmount => ChannelSetting::FxAmount(clamp_i32(val, 0, 127) as u8),
    }
}

/// Change one parameter of the mixer channel on MIDI port `channel_port`
/// from `old` to `new` (stored as integers: volume in tenths of a decibel,
/// pan, EQ gain, effect amount).
#[derive(Debug)]
pub struct SetChannelParam {
    pub channel_port: String,
    pub param: ChannelParam,
    pub old: i32,
    pub new: i32,
}

impl SetChannelParam {
    /// What applying the edit sets the parameter to.
    pub fn applied_setting(&self) -> (r: ChannelSetting)
        ensures
            r == setting_spec(self.param, self.new),
    {
        channel_setting(self.param, self.new)
    }

    /// What reverting the edit sets the parameter back to.
    pub fn reverted_setting(&self) -> (r: ChannelSetting)
        ensures
            r == setting_spec(self.param, self.old),
    {
        channel_setting(self.param, self.old)
    }

    /// `Adjust channel`.
    pub fn description(&self) -> (r: &str)
        ensures
            r@ == "Adjust channel"@,
    {
        "Adjust channel"
    }
}

} // verus!
