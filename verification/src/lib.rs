//! Scoring logic of the Narrative Credibility Index: the rubric of twenty
//! manipulation categories, the score records and their report figures, the
//! text handling around the language-model exchange, the scan pipeline of the
//! web service and the key handling of the manual scoring screen.
pub mod text;
pub mod rubric;
pub mod score;
pub mod llm;
pub mod server;
pub mod tui;
