pub mod capture;
pub mod clip;
pub mod detect;
pub mod editor;
pub mod encoding;
pub mod gallery;
pub mod history;
pub mod note_text;
pub mod notes;
pub mod ocr;
pub mod paths;
pub mod screen;
pub mod shot;
pub mod text;
