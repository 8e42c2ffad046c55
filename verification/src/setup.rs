//! The progress the loader reports while it sets a product up.
use vstd::prelude::*;
use crate::payload::Product;
use crate::text::{chars_of, string_of};

verus! {

/// A progress report: stage, message, percentage and level.
pub struct SetupEvent {
    pub stage: String,
    pub message: String,
    pub percent: u8,
    pub level: String,
}

/// A report; the percentage is capped at 100.
pub fn status_event(stage: &str, message: String, percent: u8, level: &str) -> (r: SetupEvent)
    ensures
        r.stage@ == stage@,
        r.message@ == message@,
        r.percent == if percent > 100 {
            100
        } else {
            percent
        },
        r.level@ == level@,
{
    SetupEvent {
        stage: string_of(&chars_of(stage)),
        message,
        percent: if percent > 100 {
            100
        } else {
            percent
        },
        level: string_of(&chars_of(level)),
    }
}

/// Only Neverlose needs the game found and its Lua libraries installed
/// before it starts.
pub fn needs_game_files(product: Product) -> (r: bool)
    ensures
        r == (product == Product::Neverlose),
{
    match product {
        Product::Neverlose => true,
        _ => false,
    }
}

/// The stage and message reported when the product is started.
pub fn launch_status(product: Product) -> (r: (&'static str, &'static str))
    ensures
        product == Product::Neverlose ==> r.0@ == "utility"@ && r.1@
            == "Starting bundled utility..."@,
        product == Product::Primordial ==> r.0@ == "primordial"@ && r.1@
            == "Starting Primordial..."@,
        product == Product::Gamesense ==> r.0@ == "gamesense"@ && r.1@
            == "Starting Gamesense..."@,
{
    match product {
        Product::Neverlose => ("utility", "Starting bundled utility..."),
        Product::Primordial => ("primordial", "Starting Primordial..."),
        Product::Gamesense => ("gamesense", "Starting Gamesense..."),
    }
}

} // verus!
