//! A LanguageTool-compatible checking service: annotated text with offset
//! translation, a suggestion pipeline over grammar rules, repetitions and
//! spelling, and the loading rules of packaged language models.
pub mod annotations;
pub mod api;
pub mod checkers;
pub mod dictionary;
pub mod model;
pub mod pipeline;
pub mod service;
pub mod text;
