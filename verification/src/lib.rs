//! The menu of Mensa am Schloss: reading the menu page into meals, the
//! allergen and favorite rules, the terminal layout and the JSON answer for
//! the Android app.

pub mod android_bridge;
pub mod calendar;
pub mod cli;
pub mod display;
pub mod fetch_state;
pub mod ingredients;
pub mod markup;
pub mod meal;
pub mod preferences;
pub mod style;
pub mod text;
pub mod window;
