//! Note names for MIDI codes.
use crate::chord::note::{regular, spec_to_semitone, Note, NoteLiteral, NoteModifier};
use vstd::prelude::*;

verus! {

fn natural(l: NoteLiteral) -> (r: Note)
    ensures
        r == (Note { literal: l, modifier: None }),
{
    Note { literal: l, modifier: None }
}

fn sharp(l: NoteLiteral) -> (r: Note)
    ensures
        r == (Note { literal: l, modifier: Some(NoteModifier(1)) }),
{
    Note { literal: l, modifier: Some(NoteModifier(1)) }
}

fn flat(l: NoteLiteral) -> (r: Note)
    ensures
        r == (Note { literal: l, modifier: Some(NoteModifier(-1i8)) }),
{
    Note { literal: l, modifier: Some(NoteModifier(-1i8)) }
}

pub open spec fn spec_natural(l: NoteLiteral) -> Note {
    Note { literal: l, modifier: None }
}

pub open spec fn spec_sharp(l: NoteLiteral) -> Note {
    Note { literal: l, modifier: Some(NoteModifier(1)) }
}

pub open spec fn spec_flat(l: NoteLiteral) -> Note {
    Note { literal: l, modifier: Some(NoteModifier(-1i8)) }
}

/// The names of a pitch class: the natural note, or its sharp and then its flat spelling.
pub open spec fn spec_notes_from_midi(midi: int) -> Seq<Note> {
    let pc = midi % 12;
    if pc == 0 { seq![spec_natural(NoteLiteral::C)] }
    else if pc == 1 { seq![spec_sharp(NoteLiteral::C), spec_flat(NoteLiteral::D)] }
    else if pc == 2 { seq![spec_natural(NoteLiteral::D)] }
    else if pc == 3 { seq![spec_sharp(NoteLiteral::D), spec_flat(NoteLiteral::E)] }
    else if pc == 4 { seq![spec_natural(NoteLiteral::E)] }
    else if pc == 5 { seq![spec_natural(NoteLiteral::F)] }
    else if pc == 6 { seq![spec_sharp(NoteLiteral::F), spec_flat(NoteLiteral::G)] }
    else if pc == 7 { seq![spec_natural(NoteLiteral::G)] }
    else if pc == 8 { seq![spec_sharp(NoteLiteral::G), spec_flat(NoteLiteral::A)] }
    else if pc == 9 { seq![spec_natural(NoteLiteral::A)] }
    else if pc == 10 { seq![spec_sharp(NoteLiteral::A), spec_flat(NoteLiteral::B)] }
    else { seq![spec_natural(NoteLiteral::B)] }
}

/// Every name a MIDI code gets sounds that code: its pitch class is the code's modulo 12, and
/// it is a natural note or a note with one sharp or one flat.
pub proof fn lemma_names_sound_the_code(midi: int)
    requires
        0 <= midi,
    ensures
        spec_notes_from_midi(midi).len() >= 1,
        forall|k: int| 0 <= k < spec_notes_from_midi(midi).len() ==> {
            &&& spec_to_semitone(#[trigger] spec_notes_from_midi(midi)[k]) == midi % 12
            &&& regular(spec_notes_from_midi(midi)[k])
        },
{
    let pc = midi % 12;
    let ns = spec_notes_from_midi(midi);
    assert forall|k: int| 0 <= k < ns.len() implies spec_to_semitone(#[trigger] ns[k]) == pc && regular(ns[k]) by {
        if pc == 0 { assert(ns[k] == spec_natural(NoteLiteral::C)); }
        else if pc == 1 { if k == 0 { assert(ns[k] == spec_sharp(NoteLiteral::C)); } else { assert(ns[k] == spec_flat(NoteLiteral::D)); } }
        else if pc == 2 { assert(ns[k] == spec_natural(NoteLiteral::D)); }
        else if pc == 3 { if k == 0 { assert(ns[k] == spec_sharp(NoteLiteral::D)); } else { assert(ns[k] == spec_flat(NoteLiteral::E)); } }
        else if pc == 4 { assert(ns[k] == spec_natural(NoteLiteral::E)); }
        else if pc == 5 { assert(ns[k] == spec_natural(NoteLiteral::F)); }
        else if pc == 6 { if k == 0 { assert(ns[k] == spec_sharp(NoteLiteral::F)); } else { assert(ns[k] == spec_flat(NoteLiteral::G)); } }
        else if pc == 7 { assert(ns[k] == spec_natural(NoteLiteral::G)); }
        else if pc == 8 { if k == 0 { assert(ns[k] == spec_sharp(NoteLiteral::G)); } else { assert(ns[k] == spec_flat(NoteLiteral::A)); } }
        else if pc == 9 { assert(ns[k] == spec_natural(NoteLiteral::A)); }
        else if pc == 10 { if k == 0 { assert(ns[k] == spec_sharp(NoteLiteral::A)); } else { assert(ns[k] == spec_flat(NoteLiteral::B)); } }
        else { assert(ns[k] == spec_natural(NoteLiteral::B)); }
    }
}

/// The names of the pitch class of a MIDI code: the natural note, or its sharp and then its
/// flat spelling.
pub fn notes_from_midi(midi: u8) -> (r: Vec<Note>)
    ensures
        r@ == spec_notes_from_midi(midi as int),
        r@.len() >= 1,
{
    let pc = midi % 12;
    if pc == 0 { vec![natural(NoteLiteral::C)] }
    else if pc == 1 { vec![sharp(NoteLiteral::C), flat(NoteLiteral::D)] }
    else if pc == 2 { vec![natural(NoteLiteral::D)] }
    else if pc == 3 { vec![sharp(NoteLiteral::D), flat(NoteLiteral::E)] }
    else if pc == 4 { vec![natural(NoteLiteral::E)] }
    else if pc == 5 { vec![natural(NoteLiteral::F)] }
    else if pc == 6 { vec![sharp(NoteLiteral::F), flat(NoteLiteral::G)] }
    else if pc == 7 { vec![natural(NoteLiteral::G)] }
    else if pc == 8 { vec![sharp(NoteLiteral::G), flat(NoteLiteral::A)] }
    else if pc == 9 { vec![natural(NoteLiteral::A)] }
    else if pc == 10 { vec![sharp(NoteLiteral::A), flat(NoteLiteral::B)] }
    else { vec![natural(NoteLiteral::B)] }
}

} // verus!
