//! What holds of the library as a whole, said of the values that go in and come out.

pub mod deletion;
pub mod history;
pub mod html;
pub mod images;
pub mod lists;
pub mod numbers;
pub mod opening;
pub mod pasting;
pub mod patterns;
pub mod settings;
pub mod texts;
pub mod todos;
pub mod watching;
pub mod windows;
