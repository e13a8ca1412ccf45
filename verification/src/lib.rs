//! Converter for Japanese morphological dictionary sources (Sudachi, UT,
//! Neologd) into the Mozc lexicon format.
//!
//! The core is a part-of-speech taxonomy reconciliation engine: a fuzzy
//! classification matcher that maps a wildcard-bearing POS expression onto a
//! canonical numeric id, and a reverse resolver that maps an id back onto a
//! small vocabulary of coarse, human-facing labels.  Around it stand a
//! deduplicating dictionary store with cost normalization, and per-schema row
//! converters.

pub mod coarse;
pub mod cost;
pub mod matcher;
pub mod normalize;
pub mod rows;
pub mod store;
pub mod taxonomy;
pub mod text;

use vstd::prelude::*;

verus! {

/// The one-line usage banner shown above the option list.
pub fn brief(program: &str) -> (r: String)
    ensures
        r@ == "Usage: "@ + program@ + " [options]\n\n"@
            + "Reads markdown from file or standard input and emits HTML."@,
{
    let mut s = String::new();
    s.append("Usage: ");
    s.append(program);
    s.append(" [options]\n\n");
    s.append("Reads markdown from file or standard input and emits HTML.");
    proof {
        assert(s@ =~= "Usage: "@ + program@ + " [options]\n\n"@
            + "Reads markdown from file or standard input and emits HTML."@);
    }
    s
}

} // verus!
