//! A typing-practice session engine.
//!
//! A [`TypingSession`](session::TypingSession) holds a fixed target text and
//! the text typed so far. Keystrokes extend or shorten the typed text, a
//! comparison classifies every position of the target, and finishing the
//! session yields accuracy and speed figures.

pub mod clock;
pub mod comparison;
pub mod decimal;
pub mod event;
pub mod lipogram;
pub mod score;
pub mod session;
pub mod text;
