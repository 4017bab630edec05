use vstd::prelude::*;

pub mod conjugations;
pub mod jp_to_english_dictionary;
pub mod parser;
pub mod part_of_speech;
pub mod text;
pub mod use_frequency;

verus! {

} // verus!
