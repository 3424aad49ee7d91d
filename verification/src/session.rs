//! The typing session: a target text, the text typed so far, and the clock.

use crate::comparison::{compare, comparison, judges, Verdict};
use crate::event::InputEvent;
use crate::score::{
    lemma_agreements_bounded, lemma_all_agree_iff_target_typed, score, SessionOutcome,
};
use crate::text::chars_of;
use std::time::Instant;
use vstd::prelude::*;

verus! {

/// What a session holds, as mathematics: the target, the typed text, and the
/// outcome once the session is finished.
pub struct SessionState {
    pub target: Seq<char>,
    pub input: Seq<char>,
    pub outcome: Option<SessionOutcome>,
}

impl SessionState {
    /// The state of a session on `target` in which nothing has been typed.
    pub open spec fn fresh(target: Seq<char>) -> SessionState {
        SessionState { target, input: Seq::empty(), outcome: None }
    }

    /// The typed text is no longer than the target, and the outcome of a
    /// finished session is that of its texts.
    pub open spec fn wf(self) -> bool {
        &&& self.input.len() <= self.target.len()
        &&& self.outcome matches Some(o) ==> o.describes(self.input, self.target)
    }

    /// Whether the session still takes keystrokes.
    pub open spec fn is_active(self) -> bool {
        self.outcome is None
    }

    /// The state after `c` is typed: an active session with room left takes
    /// the character, any other session stays as it is.
    pub open spec fn typed(self, c: char) -> SessionState {
        if self.is_active() && self.input.len() < self.target.len() {
            SessionState { input: self.input.push(c), ..self }
        } else {
            self
        }
    }

    /// The state after a backspace: an active session loses its last typed
    /// character, if it has one.
    pub open spec fn erased(self) -> SessionState {
        if self.is_active() && self.input.len() > 0 {
            SessionState { input: self.input.drop_last(), ..self }
        } else {
            self
        }
    }

    /// The state after the edit that `event` asks for. Giving up and handing
    /// in edit nothing.
    pub open spec fn edited(self, event: InputEvent) -> SessionState {
        match event {
            InputEvent::Insert(c) => self.typed(c),
            InputEvent::Backspace => self.erased(),
            InputEvent::Cancel => self,
            InputEvent::Submit => self,
        }
    }

    /// The state after the edits of `events`, one after the other.
    pub open spec fn edited_by(self, events: Seq<InputEvent>) -> SessionState
        decreases events.len(),
    {
        if events.len() == 0 {
            self
        } else {
            self.edited_by(events.drop_last()).edited(events.last())
        }
    }

    /// The verdicts on all positions of the target.
    pub open spec fn comparison(self) -> Seq<Verdict> {
        comparison(self.input, self.target)
    }

    /// Whether finishing the session yields `outcome` and leaves it in the
    /// state `next`: the texts stay and the outcome is kept. An active
    /// session yields the outcome of its texts, a finished one the outcome
    /// that it has kept.
    pub open spec fn finishes_as(self, outcome: SessionOutcome, next: SessionState) -> bool {
        &&& next == SessionState { outcome: Some(outcome), ..self }
        &&& match self.outcome {
            Some(kept) => outcome == kept,
            None => outcome.describes(self.input, self.target),
        }
    }
}

/// How a session goes on after a request.
#[derive(Clone, Copy, Debug, PartialEq, Eq)]
pub enum Step {
    /// The session goes on.
    Continue,
    /// The attempt was given up; there is no outcome.
    Cancelled,
    /// The attempt was handed in, with this outcome.
    Finished(SessionOutcome),
}

/// One attempt at typing a target text.
pub struct TypingSession {
    target: Vec<char>,
    input: Vec<char>,
    started: Instant,
    outcome: Option<SessionOutcome>,
}

impl View for TypingSession {
    type V = SessionState;

    closed spec fn view(&self) -> SessionState {
        SessionState { target: self.target@, input: self.input@, outcome: self.outcome }
    }
}

impl TypingSession {
    /// Starts a session on `text`, with nothing typed, and starts its clock.
    pub fn new(text: &str) -> (session: TypingSession)
        ensures
            session@ == SessionState::fresh(text@),
            session@.wf(),
    {
        TypingSession::from_chars(chars_of(text))
    }

    /// Starts a session on the characters of `target`, with nothing typed,
    /// and starts its clock.
    pub fn from_chars(target: Vec<char>) -> (session: TypingSession)
        ensures
            session@ == SessionState::fresh(target@),
            session@.wf(),
    {
        TypingSession { target, input: Vec::new(), started: Instant::now(), outcome: None }
    }

    /// The target text.
    pub fn target(&self) -> (target: &Vec<char>)
        ensures
            target@ == self@.target,
    {
        &self.target
    }

    /// The text typed so far.
    pub fn input(&self) -> (input: &Vec<char>)
        ensures
            input@ == self@.input,
    {
        &self.input
    }

    /// Whether the session still takes keystrokes.
    pub fn is_active(&self) -> (active: bool)
        ensures
            active == self@.is_active(),
    {
        self.outcome.is_none()
    }

    /// Whether the typed text has reached the length of the target, so that
    /// no further character is taken.
    pub fn is_complete(&self) -> (complete: bool)
        ensures
            complete == (self@.input.len() >= self@.target.len()),
    {
        self.input.len() >= self.target.len()
    }

    /// The outcome, once the session is finished.
    pub fn outcome(&self) -> (outcome: Option<SessionOutcome>)
        ensures
            outcome == self@.outcome,
    {
        self.outcome
    }

    /// Types `c`: an active session whose typed text is shorter than the
    /// target takes it; otherwise nothing happens.
    pub fn apply_character(&mut self, c: char)
        ensures
            final(self)@ == old(self)@.typed(c),
            old(self)@.wf() ==> final(self)@.wf(),
    {
        if self.outcome.is_none() && self.input.len() < self.target.len() {
            self.input.push(c);
        }
    }

    /// Takes back the last typed character of an active session; otherwise
    /// nothing happens.
    pub fn apply_backspace(&mut self)
        ensures
            final(self)@ == old(self)@.erased(),
            old(self)@.wf() ==> final(self)@.wf(),
    {
        if self.outcome.is_none() && self.input.len() > 0 {
            self.input.pop();
        }
    }

    /// The verdicts on all positions of the target: a match or a mismatch
    /// where something was typed, pending elsewhere.
    pub fn current_comparison(&self) -> (verdicts: Vec<Verdict>)
        ensures
            verdicts@ == self@.comparison(),
            judges(verdicts@, self@.input, self@.target),
    {
        compare(&self.input, &self.target)
    }

    /// Finishes the session as one that took `elapsed_nanos` nanoseconds, and
    /// returns its outcome. A session that was finished before keeps and
    /// returns the outcome it has.
    pub fn finalize_after(&mut self, elapsed_nanos: u128) -> (outcome: SessionOutcome)
        ensures
            old(self)@.finishes_as(outcome, final(self)@),
            old(self)@.is_active() ==> outcome.elapsed_nanos == elapsed_nanos,
            old(self)@.wf() ==> final(self)@.wf(),
    {
        match self.outcome {
            Some(kept) => kept,
            None => {
                let outcome = score(&self.input, &self.target, elapsed_nanos);
                self.outcome = Some(outcome);
                outcome
            },
        }
    }

    /// Finishes the session by its clock, and returns its outcome. A session
    /// that was finished before keeps and returns the outcome it has.
    pub fn finalize(&mut self) -> (outcome: SessionOutcome)
        ensures
            old(self)@.finishes_as(outcome, final(self)@),
            old(self)@.wf() ==> final(self)@.wf(),
    {
        let elapsed = self.started.elapsed();
        self.finalize_after(elapsed.as_nanos())
    }

    /// Carries out `event` on a session for which `elapsed_nanos` nanoseconds
    /// have passed: an edit is made and the session goes on, giving up
    /// changes nothing, handing in finishes the session.
    pub fn handle_after(&mut self, event: InputEvent, elapsed_nanos: u128) -> (step: Step)
        ensures
            match event {
                InputEvent::Insert(c) => step == Step::Continue && final(self)@ == old(
                    self,
                )@.typed(c),
                InputEvent::Backspace => step == Step::Continue && final(self)@ == old(
                    self,
                )@.erased(),
                InputEvent::Cancel => step == Step::Cancelled && final(self)@ == old(self)@,
                InputEvent::Submit => {
                    &&& step matches Step::Finished(outcome)
                    &&& old(self)@.finishes_as(outcome, final(self)@)
                    &&& old(self)@.is_active() ==> outcome.elapsed_nanos == elapsed_nanos
                },
            },
            old(self)@.wf() ==> final(self)@.wf(),
    {
        match event {
            InputEvent::Insert(c) => {
                self.apply_character(c);
                Step::Continue
            },
            InputEvent::Backspace => {
                self.apply_backspace();
                Step::Continue
            },
            InputEvent::Cancel => Step::Cancelled,
            InputEvent::Submit => Step::Finished(self.finalize_after(elapsed_nanos)),
        }
    }

    /// Carries out `event`, finishing by the session's clock: an edit is made
    /// and the session goes on, giving up changes nothing, handing in
    /// finishes the session.
    pub fn handle(&mut self, event: InputEvent) -> (step: Step)
        ensures
            match event {
                InputEvent::Insert(c) => step == Step::Continue && final(self)@ == old(
                    self,
                )@.typed(c),
                InputEvent::Backspace => step == Step::Continue && final(self)@ == old(
                    self,
                )@.erased(),
                InputEvent::Cancel => step == Step::Cancelled && final(self)@ == old(self)@,
                InputEvent::Submit => {
                    &&& step matches Step::Finished(outcome)
                    &&& old(self)@.finishes_as(outcome, final(self)@)
                },
            },
            old(self)@.wf() ==> final(self)@.wf(),
    {
        match event {
            InputEvent::Insert(c) => {
                self.apply_character(c);
                Step::Continue
            },
            InputEvent::Backspace => {
                self.apply_backspace();
                Step::Continue
            },
            InputEvent::Cancel => Step::Cancelled,
            InputEvent::Submit => Step::Finished(self.finalize()),
        }
    }
}

/// A session with nothing typed is well formed.
pub proof fn lemma_fresh_is_well_formed(target: Seq<char>)
    ensures
        SessionState::fresh(target).wf(),
        SessionState::fresh(target).is_active(),
{
}

/// An edit keeps a well-formed session well formed, and changes neither the
/// target nor the outcome.
pub proof fn lemma_edit_keeps_well_formed(state: SessionState, event: InputEvent)
    requires
        state.wf(),
    ensures
        state.edited(event).wf(),
        state.edited(event).target == state.target,
        state.edited(event).outcome == state.outcome,
{
}

/// Whatever is typed and taken back, in whatever order, the typed text never
/// grows longer than the target, and the target stays what it was.
pub proof fn lemma_input_never_overruns(target: Seq<char>, events: Seq<InputEvent>)
    ensures
        SessionState::fresh(target).edited_by(events).input.len() <= target.len(),
        SessionState::fresh(target).edited_by(events).target == target,
        SessionState::fresh(target).edited_by(events).wf(),
    decreases events.len(),
{
    if events.len() > 0 {
        lemma_input_never_overruns(target, events.drop_last());
        lemma_edit_keeps_well_formed(
            SessionState::fresh(target).edited_by(events.drop_last()),
            events.last(),
        );
    }
}

/// Edits do not reach a finished session: its texts and its outcome stay.
pub proof fn lemma_finished_is_final(state: SessionState, events: Seq<InputEvent>)
    requires
        !state.is_active(),
    ensures
        state.edited_by(events) == state,
    decreases events.len(),
{
    if events.len() > 0 {
        lemma_finished_is_final(state, events.drop_last());
    }
}

/// Typing a character and taking it back leaves the session as it was,
/// unless the session is active and its typed text, not empty, already
/// fills the target: then the character is not taken, and the backspace
/// removes an earlier one.
pub proof fn lemma_backspace_undoes_typing(state: SessionState, c: char)
    requires
        !state.is_active() || state.input.len() < state.target.len() || state.input.len() == 0,
    ensures
        state.typed(c).erased() == state,
{
    assert(state.input.push(c).drop_last() =~= state.input);
}

/// Where an active session's typed text, not empty, fills the target, typing
/// a character and taking it back loses the last character typed before.
pub proof fn lemma_backspace_after_full(state: SessionState, c: char)
    requires
        state.is_active(),
        state.input.len() >= state.target.len(),
        state.input.len() > 0,
    ensures
        state.typed(c).erased().input == state.input.drop_last(),
        state.typed(c).erased() != state,
{
}

/// The number of correct characters of a finished session is at most the
/// number of characters of its target, and equals it exactly if the typed
/// text is the target.
pub proof fn lemma_all_correct_iff_target_typed(state: SessionState)
    requires
        state.wf(),
        state.outcome is Some,
    ensures
        state.outcome->0.chars_correct <= state.outcome->0.chars_total,
        state.outcome->0.chars_correct == state.outcome->0.chars_total <==> state.input
            == state.target,
{
    lemma_agreements_bounded(state.input, state.target);
    lemma_all_agree_iff_target_typed(state.input, state.target);
    if state.target.is_prefix_of(state.input) {
        assert(state.input =~= state.target);
    }
    if state.input == state.target {
        assert(state.target =~= state.input.subrange(0, state.target.len() as int));
    }
}

} // verus!
