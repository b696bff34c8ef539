use vstd::prelude::*;

pub mod adapters;
pub mod book;
pub mod book_archive;
pub mod book_export;
pub mod book_import;
pub mod book_laws;
pub mod book_text;
pub mod book_workflow;
pub mod book_xml;
pub mod content;
pub mod credentials;
pub mod desktop;
pub mod errors;
pub mod history;
pub mod json;
pub mod language_pack;
pub mod order;
pub mod patch;
pub mod patch_laws;
pub mod patch_ops;
pub mod providers;
pub mod renpy;
pub mod rimworld;
pub mod rpgmaker;
pub mod rpgmaker_laws;
pub mod text;
pub mod translation_run;
pub mod translations;
pub mod xml;

verus! {

/// The product name shown by every front end of the translator.
pub fn product_name() -> (name: &'static str)
    ensures
        name@ == "GameTranslator"@,
{
    "GameTranslator"
}

} // verus!
