//! Comment and skipped-token-trivia layout for a code formatter: each layout is given as a
//! specification, and each formatting function writes exactly that layout.
pub mod text;
pub mod comments;
pub mod format_element;
pub mod token;
pub mod formatter;
pub mod trivia;
pub mod laws;
pub mod spacing;
