use crate::body::ranking::{counts_view, places_view, top_indices, top_picks};
use crate::errors::Error;
use crate::structs::keyed::{Keyed, Summary};
use crate::structs::structs_json::{
    views_of, LanguageEntry, LanguageEntryView, TopGamesEntry, TopGamesEntryView,
    TopLanguagesEntry, TopLanguagesEntryView, TopReviewEntry, TopReviewEntryView,
};
use crate::structs::structs_process_data::{
    games_wf, languages_wf, lemma_entries_view_at, names_of, GameMap, LanguageMap, LanguageStats,
    LanguageStatsView, TopGames, TopGamesLanguagesView, TopGamesView,
};
use vstd::prelude::*;

verus! {

/// How many games make the report.
pub const TOP_GAMES: usize = 3;

/// How many languages make the report, overall and for each game.
pub const TOP_LANGUAGES: usize = 3;

/// How many reviews make the report for each language.
pub const TOP_REVIEWS: usize = 10;

/// The review counts of the languages of a game, in the order of the languages.
pub open spec fn language_counts(languages: Keyed<TopGamesLanguagesView>) -> Seq<nat> {
    Seq::new(languages.order.len(), |i: int| languages.items[languages.order[i]].review_count)
}

/// The report entry of the language at `place` of a game.
pub open spec fn language_entry(
    languages: Keyed<TopGamesLanguagesView>,
    place: int,
) -> LanguageEntryView {
    let name = languages.order[place];
    LanguageEntryView {
        language: name,
        review_count: languages.items[name].review_count,
        top_review: languages.items[name].top_review,
        top_review_votes: languages.items[name].top_review_count,
    }
}

/// The languages of a game with the most reviews, most first, three at most. Of languages
/// with equally many reviews the one seen earlier comes first.
pub open spec fn top_languages_of_game(
    languages: Keyed<TopGamesLanguagesView>,
) -> Seq<LanguageEntryView> {
    let picks = top_picks(language_counts(languages), TOP_LANGUAGES as nat);
    Seq::new(picks.len(), |p: int| language_entry(languages, picks[p]))
}

/// The review counts of the games, in the order of the games.
pub open spec fn game_counts(games: Keyed<TopGamesView>) -> Seq<nat> {
    Seq::new(games.order.len(), |i: int| games.items[games.order[i]].total_review_count)
}

/// The report entry of the game at `place`.
pub open spec fn game_entry(games: Keyed<TopGamesView>, place: int) -> TopGamesEntryView {
    let name = games.order[place];
    TopGamesEntryView {
        game: name,
        review_count: games.items[name].total_review_count,
        languages: top_languages_of_game(games.items[name].languages),
    }
}

/// The games with the most reviews, most first, three at most, each with its top languages.
/// Of games with equally many reviews the one seen earlier comes first.
pub open spec fn top_games(games: Keyed<TopGamesView>) -> Seq<TopGamesEntryView> {
    let picks = top_picks(game_counts(games), TOP_GAMES as nat);
    Seq::new(picks.len(), |p: int| game_entry(games, picks[p]))
}

/// The votes of the reviews, in the order of the reviews.
pub open spec fn vote_counts(reviews: Seq<TopReviewEntryView>) -> Seq<nat> {
    Seq::new(reviews.len(), |i: int| reviews[i].votes)
}

/// The reviews with the most votes, most first, ten at most. Of reviews with equally many
/// votes the one seen earlier comes first.
pub open spec fn top_reviews(reviews: Seq<TopReviewEntryView>) -> Seq<TopReviewEntryView> {
    let picks = top_picks(vote_counts(reviews), TOP_REVIEWS as nat);
    Seq::new(picks.len(), |p: int| reviews[picks[p]])
}

/// The review counts of the languages, in the order of the languages.
pub open spec fn corpus_counts(languages: Keyed<LanguageStatsView>) -> Seq<nat> {
    Seq::new(languages.order.len(), |i: int| languages.items[languages.order[i]].review_count)
}

/// The report entry of the language at `place`.
pub open spec fn corpus_entry(
    languages: Keyed<LanguageStatsView>,
    place: int,
) -> TopLanguagesEntryView {
    let name = languages.order[place];
    TopLanguagesEntryView {
        language: name,
        review_count: languages.items[name].review_count,
        top_reviews: top_reviews(languages.items[name].top_reviews),
    }
}

/// The languages with the most reviews, most first, three at most, each with its top
/// reviews. Of languages with equally many reviews the one seen earlier comes first.
pub open spec fn top_languages(languages: Keyed<LanguageStatsView>) -> Seq<
    TopLanguagesEntryView,
> {
    let picks = top_picks(corpus_counts(languages), TOP_LANGUAGES as nat);
    Seq::new(picks.len(), |p: int| corpus_entry(languages, picks[p]))
}

/// Ranks the languages of one game by their number of reviews and keeps the first three.
/// No language may be listed twice.
pub fn rank_languages(game: &TopGames) -> (ranked: Vec<LanguageEntry>)
    requires
        names_of(game.top_games_languages@).no_duplicates(),
    ensures
        views_of(ranked@) == top_languages_of_game(game@.languages),
        ranked.len() <= TOP_LANGUAGES,
        game.wf() ==> forall|q: int|
            0 <= q < ranked.len() && (#[trigger] ranked[q]).top_review_votes == 0
                ==> ranked[q].top_review@ == Seq::<char>::empty(),
{
    let mut counts: Vec<u32> = Vec::new();
    let mut i: usize = 0;
    while i < game.top_games_languages.len()
        invariant
            i <= game.top_games_languages.len(),
            counts.len() == i,
            forall|k: int| 0 <= k < i ==> counts[k] == game.top_games_languages[k].1.review_count,
        decreases game.top_games_languages.len() - i,
    {
        counts.push(game.top_games_languages[i].1.review_count);
        i += 1;
    }
    proof {
        assert forall|k: int| 0 <= k < counts.len() implies counts_view(counts@)[k]
            == language_counts(game@.languages)[k] by {
            lemma_entries_view_at(game.top_games_languages@, k);
        }
        assert(counts_view(counts@) =~= language_counts(game@.languages));
    }
    let picks = top_indices(&counts, TOP_LANGUAGES);
    let mut ranked: Vec<LanguageEntry> = Vec::new();
    let mut p: usize = 0;
    while p < picks.len()
        invariant
            p <= picks.len(),
            ranked.len() == p,
            names_of(game.top_games_languages@).no_duplicates(),
            counts.len() == game.top_games_languages.len(),
            forall|q: int|
                0 <= q < picks.len() ==> 0 <= #[trigger] places_view(picks@)[q] < counts.len(),
            forall|q: int|
                0 <= q < p ==> (#[trigger] ranked[q])@ == language_entry(
                    game@.languages,
                    places_view(picks@)[q],
                ),
            game.wf() ==> forall|q: int|
                0 <= q < p && (#[trigger] ranked[q]).top_review_votes == 0 ==> ranked[q].top_review@
                    == Seq::<char>::empty(),
        decreases picks.len() - p,
    {
        assert(places_view(picks@)[p as int] == picks[p as int]);
        let entry = &game.top_games_languages[picks[p]];
        proof {
            lemma_entries_view_at(game.top_games_languages@, picks[p as int] as int);
        }
        ranked.push(
            LanguageEntry {
                language: entry.0.clone(),
                review_count: entry.1.review_count,
                top_review: entry.1.top_review.clone(),
                top_review_votes: entry.1.top_review_count,
            },
        );
        p += 1;
    }
    assert(views_of(ranked@) =~= top_languages_of_game(game@.languages));
    ranked
}

/// Ranks the games by their number of reviews and keeps the first three, each with its
/// first three languages by number of reviews.
///
/// Of games, or of languages, with equally many reviews the one that was seen earlier comes
/// first. Never fails.
pub fn filter_top_games(data: GameMap) -> (ranked: Result<Vec<TopGamesEntry>, Error>)
    ensures
        ranked matches Ok(entries) && {
            &&& views_of(entries@) == top_games(data@)
            &&& entries.len() <= TOP_GAMES
            &&& forall|i: int|
                0 <= i < entries.len() ==> (#[trigger] entries[i]).languages.len() <= TOP_LANGUAGES
            &&& forall|i: int, j: int|
                0 <= i < entries.len() && 0 <= j < entries[i].languages.len() && (
                #[trigger] entries[i].languages[j]).top_review_votes == 0
                    ==> entries[i].languages[j].top_review@ == Seq::<char>::empty()
        },
{
    proof {
        use_type_invariant(&data);
    }
    let mut counts: Vec<u32> = Vec::new();
    let mut i: usize = 0;
    while i < data.entries.len()
        invariant
            i <= data.entries.len(),
            counts.len() == i,
            forall|k: int| 0 <= k < i ==> counts[k] == data.entries[k].1.total_review_count,
        decreases data.entries.len() - i,
    {
        counts.push(data.entries[i].1.total_review_count);
        i += 1;
    }
    proof {
        assert forall|k: int| 0 <= k < counts.len() implies counts_view(counts@)[k] == game_counts(
            data@,
        )[k] by {
            lemma_entries_view_at(data.entries@, k);
        }
        assert(counts_view(counts@) =~= game_counts(data@));
    }
    let picks = top_indices(&counts, TOP_GAMES);
    let mut entries: Vec<TopGamesEntry> = Vec::new();
    let mut p: usize = 0;
    while p < picks.len()
        invariant
            p <= picks.len(),
            entries.len() == p,
            games_wf(data.entries@),
            counts.len() == data.entries.len(),
            forall|q: int|
                0 <= q < picks.len() ==> 0 <= #[trigger] places_view(picks@)[q] < counts.len(),
            forall|q: int|
                0 <= q < p ==> (#[trigger] entries[q])@ == game_entry(
                    data@,
                    places_view(picks@)[q],
                ),
            forall|q: int| 0 <= q < p ==> (#[trigger] entries[q]).languages.len() <= TOP_LANGUAGES,
            forall|q: int, j: int|
                0 <= q < p && 0 <= j < entries[q].languages.len() && (
                #[trigger] entries[q].languages[j]).top_review_votes == 0
                    ==> entries[q].languages[j].top_review@ == Seq::<char>::empty(),
        decreases picks.len() - p,
    {
        assert(places_view(picks@)[p as int] == picks[p as int]);
        let entry = &data.entries[picks[p]];
        proof {
            lemma_entries_view_at(data.entries@, picks[p as int] as int);
        }
        entries.push(
            TopGamesEntry {
                game: entry.0.clone(),
                review_count: entry.1.total_review_count,
                languages: rank_languages(&entry.1),
            },
        );
        p += 1;
    }
    assert(views_of(entries@) =~= top_games(data@));
    Ok(entries)
}

/// Ranks the reviews of one language by their votes and keeps the first ten.
pub fn rank_reviews(language: &LanguageStats) -> (ranked: Vec<TopReviewEntry>)
    ensures
        views_of(ranked@) == top_reviews(language@.top_reviews),
        ranked.len() <= TOP_REVIEWS,
        language@.settled() ==> forall|q: int|
            0 <= q < ranked.len() ==> (#[trigger] ranked[q]).votes > 0,
{
    let mut votes: Vec<u32> = Vec::new();
    let mut i: usize = 0;
    while i < language.top_reviews.len()
        invariant
            i <= language.top_reviews.len(),
            votes.len() == i,
            forall|k: int| 0 <= k < i ==> votes[k] == language.top_reviews[k].votes,
        decreases language.top_reviews.len() - i,
    {
        votes.push(language.top_reviews[i].votes);
        i += 1;
    }
    assert(counts_view(votes@) =~= vote_counts(language@.top_reviews));
    let picks = top_indices(&votes, TOP_REVIEWS);
    let mut ranked: Vec<TopReviewEntry> = Vec::new();
    let mut p: usize = 0;
    while p < picks.len()
        invariant
            p <= picks.len(),
            ranked.len() == p,
            votes.len() == language.top_reviews.len(),
            forall|q: int|
                0 <= q < picks.len() ==> 0 <= #[trigger] places_view(picks@)[q] < votes.len(),
            forall|q: int|
                0 <= q < p ==> (#[trigger] ranked[q])@ == language@.top_reviews[places_view(
                    picks@,
                )[q]],
            language@.settled() ==> forall|q: int| 0 <= q < p ==> (#[trigger] ranked[q]).votes > 0,
        decreases picks.len() - p,
    {
        assert(places_view(picks@)[p as int] == picks[p as int]);
        let kept = &language.top_reviews[picks[p]];
        assert(language@.top_reviews[picks[p as int] as int].votes == kept.votes);
        ranked.push(TopReviewEntry { review: kept.review.clone(), votes: kept.votes });
        p += 1;
    }
    assert(views_of(ranked@) =~= top_reviews(language@.top_reviews));
    ranked
}

/// Ranks the languages by their number of reviews and keeps the first three, each with its
/// first ten reviews by votes.
///
/// Of languages with equally many reviews, or of reviews with equally many votes, the one
/// that was seen earlier comes first. Never fails.
pub fn filter_top_languages(languages: LanguageMap) -> (ranked: Result<
    Vec<TopLanguagesEntry>,
    Error,
>)
    ensures
        ranked matches Ok(entries) && {
            &&& views_of(entries@) == top_languages(languages@)
            &&& entries.len() <= TOP_LANGUAGES
            &&& forall|i: int|
                0 <= i < entries.len() ==> (#[trigger] entries[i]).top_reviews.len() <= TOP_REVIEWS
            &&& forall|i: int, k: int|
                0 <= i < entries.len() && 0 <= k < entries[i].top_reviews.len() ==> (
                #[trigger] entries[i].top_reviews[k]).votes > 0
        },
{
    proof {
        use_type_invariant(&languages);
    }
    let mut counts: Vec<u32> = Vec::new();
    let mut i: usize = 0;
    while i < languages.entries.len()
        invariant
            i <= languages.entries.len(),
            counts.len() == i,
            forall|k: int| 0 <= k < i ==> counts[k] == languages.entries[k].1.review_count,
        decreases languages.entries.len() - i,
    {
        counts.push(languages.entries[i].1.review_count);
        i += 1;
    }
    proof {
        assert forall|k: int| 0 <= k < counts.len() implies counts_view(counts@)[k]
            == corpus_counts(languages@)[k] by {
            lemma_entries_view_at(languages.entries@, k);
        }
        assert(counts_view(counts@) =~= corpus_counts(languages@));
    }
    let picks = top_indices(&counts, TOP_LANGUAGES);
    let mut entries: Vec<TopLanguagesEntry> = Vec::new();
    let mut p: usize = 0;
    while p < picks.len()
        invariant
            p <= picks.len(),
            entries.len() == p,
            languages_wf(languages.entries@),
            counts.len() == languages.entries.len(),
            forall|q: int|
                0 <= q < picks.len() ==> 0 <= #[trigger] places_view(picks@)[q] < counts.len(),
            forall|q: int|
                0 <= q < p ==> (#[trigger] entries[q])@ == corpus_entry(
                    languages@,
                    places_view(picks@)[q],
                ),
            forall|q: int| 0 <= q < p ==> (#[trigger] entries[q]).top_reviews.len() <= TOP_REVIEWS,
            forall|q: int, k: int|
                0 <= q < p && 0 <= k < entries[q].top_reviews.len() ==> (
                #[trigger] entries[q].top_reviews[k]).votes > 0,
        decreases picks.len() - p,
    {
        assert(places_view(picks@)[p as int] == picks[p as int]);
        let entry = &languages.entries[picks[p]];
        proof {
            lemma_entries_view_at(languages.entries@, picks[p as int] as int);
        }
        entries.push(
            TopLanguagesEntry {
                language: entry.0.clone(),
                review_count: entry.1.review_count,
                top_reviews: rank_reviews(&entry.1),
            },
        );
        p += 1;
    }
    assert(views_of(entries@) =~= top_languages(languages@));
    Ok(entries)
}

} // verus!
