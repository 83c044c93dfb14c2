use crate::structs::structs_json::{
    views_of, OutputJson, OutputJsonView, TopGamesEntry, TopLanguagesEntry,
};
use vstd::prelude::*;

verus! {

/// The number that identifies the author of the report.
pub const PADRON: u32 = 85927;

/// Puts the report together: the identifying number, the top games and the top languages.
pub fn output_json(
    top_3_games: Vec<TopGamesEntry>,
    top_3_languages: Vec<TopLanguagesEntry>,
) -> (data: OutputJson)
    ensures
        data@ == (OutputJsonView {
            padron: PADRON as nat,
            top_games: views_of(top_3_games@),
            top_languages: views_of(top_3_languages@),
        }),
        data.top_games == top_3_games,
        data.top_languages == top_3_languages,
{
    OutputJson { padron: PADRON, top_games: top_3_games, top_languages: top_3_languages }
}

} // verus!
