use crate::body::filter_data::{
    corpus_counts, game_counts, language_counts, top_games, top_languages, vote_counts,
    TOP_GAMES, TOP_LANGUAGES, TOP_REVIEWS,
};
use crate::body::ranking::{lemma_top_selection_exists, top_picks};
use crate::structs::keyed::{
    lemma_index_of_unique, lemma_merge_absorb, lemma_merge_associative, lemma_merge_empty,
    lemma_put_settled, Keyed, Summary,
};
use crate::structs::structs_json::TopReviewEntryView;
use crate::structs::structs_process_data::{
    games_of, languages_of, lemma_record_is_absorb, LanguageStatsView, ReviewView,
    TopGamesLanguagesView, TopGamesView,
};
use crate::structs::totals::{lemma_sum_push, lemma_sum_update, sum};
use vstd::prelude::*;
use vstd::seq_lib::lemma_seq_union_to_multiset_commutative;

verus! {

/// The statistics of any sequence of reviews are settled: every game and language is
/// listed once, no text is kept of a review without a vote, and every review kept for a
/// language has a vote.
pub proof fn lemma_statistics_settled(reviews: Seq<ReviewView>)
    ensures
        games_of(reviews).settled(),
        languages_of(reviews).settled(),
    decreases reviews.len(),
{
    if reviews.len() > 0 {
        let rest = reviews.drop_last();
        let last = reviews.last();
        lemma_statistics_settled(rest);
        let game = games_of(rest).get(last.game);
        TopGamesView::lemma_settled(game, game);
        let tally = game.languages.get(last.language);
        TopGamesLanguagesView::lemma_settled(tally, tally);
        lemma_put_settled(game.languages, last.language, tally.record(last));
        lemma_put_settled(games_of(rest), last.game, game.record(last));
        let language = languages_of(rest).get(last.language);
        LanguageStatsView::lemma_settled(language, language);
        lemma_put_settled(languages_of(rest), last.language, language.record(last));
    }
}

/// Splitting the reviews into two parts at any place, building the statistics of each part
/// and merging the two gives the statistics of the whole, and so the same report.
pub proof fn lemma_split_merge(first: Seq<ReviewView>, second: Seq<ReviewView>)
    ensures
        games_of(first + second) == games_of(first).merge(games_of(second)),
        languages_of(first + second) == languages_of(first).merge(languages_of(second)),
        top_games(games_of(first + second)) == top_games(
            games_of(first).merge(games_of(second)),
        ),
        top_languages(languages_of(first + second)) == top_languages(
            languages_of(first).merge(languages_of(second)),
        ),
    decreases second.len(),
{
    if second.len() == 0 {
        assert(first + second =~= first);
        lemma_merge_empty(games_of(first));
        lemma_merge_empty(languages_of(first));
    } else {
        let rest = second.drop_last();
        let last = second.last();
        assert((first + second).drop_last() =~= first + rest);
        assert((first + second).last() == last);
        lemma_split_merge(first, rest);
        lemma_record_is_absorb(last);
        lemma_merge_absorb(
            games_of(first),
            games_of(rest),
            last.game,
            TopGamesView::of_review(last),
        );
        lemma_merge_absorb(
            languages_of(first),
            languages_of(rest),
            last.language,
            LanguageStatsView::of_review(last),
        );
    }
}

/// The reviews of all the groups, one group after the other.
pub open spec fn all_reviews(groups: Seq<Seq<ReviewView>>) -> Seq<ReviewView>
    decreases groups.len(),
{
    if groups.len() == 0 {
        Seq::empty()
    } else {
        all_reviews(groups.drop_last()) + groups.last()
    }
}

/// The per-game statistics of each group, merged one after the other.
pub open spec fn merged_games(groups: Seq<Seq<ReviewView>>) -> Keyed<TopGamesView>
    decreases groups.len(),
{
    if groups.len() == 0 {
        Keyed::empty()
    } else {
        merged_games(groups.drop_last()).merge(games_of(groups.last()))
    }
}

/// The per-language statistics of each group, merged one after the other.
pub open spec fn merged_languages(groups: Seq<Seq<ReviewView>>) -> Keyed<LanguageStatsView>
    decreases groups.len(),
{
    if groups.len() == 0 {
        Keyed::empty()
    } else {
        merged_languages(groups.drop_last()).merge(languages_of(groups.last()))
    }
}

/// Splitting the reviews into any number of groups, building the statistics of each group
/// and merging them one after the other gives the statistics of all the reviews.
pub proof fn lemma_groups_merge(groups: Seq<Seq<ReviewView>>)
    ensures
        merged_games(groups) == games_of(all_reviews(groups)),
        merged_languages(groups) == languages_of(all_reviews(groups)),
    decreases groups.len(),
{
    if groups.len() > 0 {
        lemma_groups_merge(groups.drop_last());
        lemma_split_merge(all_reviews(groups.drop_last()), groups.last());
    }
}

/// However three partial results are grouped, merging them gives the same statistics.
pub proof fn lemma_merge_any_grouping(
    a: (Keyed<TopGamesView>, Keyed<LanguageStatsView>),
    b: (Keyed<TopGamesView>, Keyed<LanguageStatsView>),
    c: (Keyed<TopGamesView>, Keyed<LanguageStatsView>),
)
    ensures
        a.0.merge(b.0).merge(c.0) == a.0.merge(b.0.merge(c.0)),
        a.1.merge(b.1).merge(c.1) == a.1.merge(b.1.merge(c.1)),
{
    lemma_merge_associative(a.0, b.0, c.0);
    lemma_merge_associative(a.1, b.1, c.1);
}

/// In whichever order two partial results are merged, the merged result knows the same
/// games and languages, with the same review counts and the same highest vote counts. (Which
/// of two top reviews with equally many votes stays does depend on the order.)
pub proof fn lemma_game_merge_commutes_on_counts(
    a: Keyed<TopGamesView>,
    b: Keyed<TopGamesView>,
    game: Seq<char>,
    language: Seq<char>,
)
    ensures
        a.merge(b).items.contains_key(game) == b.merge(a).items.contains_key(game),
        a.merge(b).get(game).total_review_count == b.merge(a).get(game).total_review_count,
        a.merge(b).get(game).languages.items.contains_key(language) == b.merge(a).get(
            game,
        ).languages.items.contains_key(language),
        a.merge(b).get(game).languages.get(language).review_count == b.merge(a).get(
            game,
        ).languages.get(language).review_count,
        a.merge(b).get(game).languages.get(language).top_review_count == b.merge(a).get(
            game,
        ).languages.get(language).top_review_count,
{
}

/// In whichever order two partial results are merged, the merged result knows the same
/// languages, with the same review counts and the same voted reviews, each as often. (In
/// which order the voted reviews are kept does depend on the order.)
pub proof fn lemma_language_merge_commutes_on_counts(
    a: Keyed<LanguageStatsView>,
    b: Keyed<LanguageStatsView>,
    language: Seq<char>,
)
    ensures
        a.merge(b).items.contains_key(language) == b.merge(a).items.contains_key(language),
        a.merge(b).get(language).review_count == b.merge(a).get(language).review_count,
        a.merge(b).get(language).top_reviews.to_multiset() == b.merge(a).get(
            language,
        ).top_reviews.to_multiset(),
{
    lemma_seq_union_to_multiset_commutative(
        a.get(language).top_reviews,
        b.get(language).top_reviews,
    );
    assert(Seq::<TopReviewEntryView>::empty() + Seq::<TopReviewEntryView>::empty()
        =~= Seq::<TopReviewEntryView>::empty());
}

/// Whether a review is one of the given game in the given language.
pub open spec fn is_of_pair(review: ReviewView, game: Seq<char>, language: Seq<char>) -> bool {
    review.game == game && review.language == language
}

/// How many of the reviews are of the given game.
pub open spec fn count_of_game(reviews: Seq<ReviewView>, game: Seq<char>) -> nat
    decreases reviews.len(),
{
    if reviews.len() == 0 {
        0
    } else if reviews.last().game == game {
        count_of_game(reviews.drop_last(), game) + 1
    } else {
        count_of_game(reviews.drop_last(), game)
    }
}

/// How many of the reviews are of the given game in the given language.
pub open spec fn count_of_pair(
    reviews: Seq<ReviewView>,
    game: Seq<char>,
    language: Seq<char>,
) -> nat
    decreases reviews.len(),
{
    if reviews.len() == 0 {
        0
    } else if is_of_pair(reviews.last(), game, language) {
        count_of_pair(reviews.drop_last(), game, language) + 1
    } else {
        count_of_pair(reviews.drop_last(), game, language)
    }
}

/// How many of the reviews are in the given language.
pub open spec fn count_of_language(reviews: Seq<ReviewView>, language: Seq<char>) -> nat
    decreases reviews.len(),
{
    if reviews.len() == 0 {
        0
    } else if reviews.last().language == language {
        count_of_language(reviews.drop_last(), language) + 1
    } else {
        count_of_language(reviews.drop_last(), language)
    }
}

/// The reviews in the given language that received a vote, in order.
pub open spec fn voted_reviews(reviews: Seq<ReviewView>, language: Seq<char>) -> Seq<
    TopReviewEntryView,
>
    decreases reviews.len(),
{
    if reviews.len() == 0 {
        Seq::empty()
    } else if reviews.last().language == language && reviews.last().votes > 0 {
        voted_reviews(reviews.drop_last(), language).push(
            TopReviewEntryView { review: reviews.last().text, votes: reviews.last().votes },
        )
    } else {
        voted_reviews(reviews.drop_last(), language)
    }
}

/// What the statistics of `reviews` hold for a game in a language.
pub open spec fn pair_summary(
    reviews: Seq<ReviewView>,
    game: Seq<char>,
    language: Seq<char>,
) -> TopGamesLanguagesView {
    games_of(reviews).get(game).languages.get(language)
}

/// Whether the review at place `i` is of the given game and language, no review of them has
/// more votes, and none before it has as many.
pub open spec fn is_first_maximum(
    reviews: Seq<ReviewView>,
    game: Seq<char>,
    language: Seq<char>,
    i: int,
) -> bool {
    &&& 0 <= i < reviews.len()
    &&& is_of_pair(reviews[i], game, language)
    &&& forall|j: int|
        0 <= j < reviews.len() && is_of_pair(#[trigger] reviews[j], game, language)
            ==> reviews[j].votes <= reviews[i].votes
    &&& forall|j: int|
        0 <= j < i && is_of_pair(#[trigger] reviews[j], game, language) ==> reviews[j].votes
            < reviews[i].votes
}

/// One more review changes the summary of its own game and language only, and changes it as
/// counting the review does.
pub proof fn lemma_pair_summary_step(
    reviews: Seq<ReviewView>,
    game: Seq<char>,
    language: Seq<char>,
)
    requires
        reviews.len() > 0,
    ensures
        pair_summary(reviews, game, language) == if is_of_pair(reviews.last(), game, language) {
            pair_summary(reviews.drop_last(), game, language).record(reviews.last())
        } else {
            pair_summary(reviews.drop_last(), game, language)
        },
        games_of(reviews).get(game).total_review_count == games_of(reviews.drop_last()).get(
            game,
        ).total_review_count + if reviews.last().game == game {
            1nat
        } else {
            0nat
        },
{
}

/// Every game has as many reviews counted as were seen of it, and so has every language of
/// every game.
pub proof fn lemma_counts_are_exact(
    reviews: Seq<ReviewView>,
    game: Seq<char>,
    language: Seq<char>,
)
    ensures
        games_of(reviews).get(game).total_review_count == count_of_game(reviews, game),
        pair_summary(reviews, game, language).review_count == count_of_pair(
            reviews,
            game,
            language,
        ),
    decreases reviews.len(),
{
    if reviews.len() > 0 {
        lemma_counts_are_exact(reviews.drop_last(), game, language);
        lemma_pair_summary_step(reviews, game, language);
    }
}

/// For every game and language, the vote count kept is the highest among the reviews of
/// that game and language: none has more votes, and one of them, if there is any, has as
/// many. Where it is positive, the text kept is that of the first review that has so many
/// votes; where it is zero, no text is kept.
pub proof fn lemma_top_review_is_first_maximum(
    reviews: Seq<ReviewView>,
    game: Seq<char>,
    language: Seq<char>,
)
    ensures
        forall|i: int|
            0 <= i < reviews.len() && is_of_pair(#[trigger] reviews[i], game, language)
                ==> reviews[i].votes <= pair_summary(reviews, game, language).top_review_count,
        forall|i: int|
            0 <= i < reviews.len() && is_of_pair(#[trigger] reviews[i], game, language)
                ==> exists|j: int|
                0 <= j < reviews.len() && is_of_pair(#[trigger] reviews[j], game, language)
                    && reviews[j].votes == pair_summary(reviews, game, language).top_review_count,
        pair_summary(reviews, game, language).top_review_count == 0 ==> pair_summary(
            reviews,
            game,
            language,
        ).top_review == Seq::<char>::empty(),
        pair_summary(reviews, game, language).top_review_count > 0 ==> exists|i: int|
            {
                &&& #[trigger] is_first_maximum(reviews, game, language, i)
                &&& reviews[i].votes == pair_summary(reviews, game, language).top_review_count
                &&& reviews[i].text == pair_summary(reviews, game, language).top_review
            },
    decreases reviews.len(),
{
    if reviews.len() > 0 {
        let rest = reviews.drop_last();
        let last = reviews.last();
        let before = pair_summary(rest, game, language);
        let after = pair_summary(reviews, game, language);
        lemma_top_review_is_first_maximum(rest, game, language);
        lemma_pair_summary_step(reviews, game, language);
        assert forall|i: int|
            0 <= i < reviews.len() && is_of_pair(
                #[trigger] reviews[i],
                game,
                language,
            ) implies reviews[i].votes <= after.top_review_count by {
            if i < rest.len() {
                assert(rest[i] == reviews[i]);
            }
        }
        assert forall|i: int|
            0 <= i < reviews.len() && is_of_pair(
                #[trigger] reviews[i],
                game,
                language,
            ) implies exists|j: int|
            0 <= j < reviews.len() && is_of_pair(#[trigger] reviews[j], game, language)
                && reviews[j].votes == after.top_review_count by {
            if is_of_pair(last, game, language) && last.votes >= before.top_review_count {
                let j = reviews.len() - 1;
                assert(is_of_pair(reviews[j], game, language) && reviews[j].votes
                    == after.top_review_count);
            } else if i == rest.len() {
                // The last review is of the pair but has fewer votes than the highest so
                // far, so the highest so far is positive and some earlier review has it.
                let k = choose|k: int|
                    {
                        &&& #[trigger] is_first_maximum(rest, game, language, k)
                        &&& rest[k].votes == before.top_review_count
                        &&& rest[k].text == before.top_review
                    };
                assert(reviews[k] == rest[k]);
                assert(is_of_pair(reviews[k], game, language) && reviews[k].votes
                    == after.top_review_count);
            } else {
                assert(rest[i] == reviews[i]);
                let j = choose|j: int|
                    0 <= j < rest.len() && is_of_pair(#[trigger] rest[j], game, language)
                        && rest[j].votes == before.top_review_count;
                assert(reviews[j] == rest[j]);
                assert(is_of_pair(reviews[j], game, language) && reviews[j].votes
                    == after.top_review_count);
            }
        }
        if after.top_review_count > 0 {
            if is_of_pair(last, game, language) && last.votes > before.top_review_count {
                let i = reviews.len() - 1;
                assert forall|j: int|
                    0 <= j < i && is_of_pair(
                        #[trigger] reviews[j],
                        game,
                        language,
                    ) implies reviews[j].votes < reviews[i].votes by {
                    assert(rest[j] == reviews[j]);
                }
                assert(is_first_maximum(reviews, game, language, i));
            } else {
                let i = choose|i: int|
                    {
                        &&& #[trigger] is_first_maximum(rest, game, language, i)
                        &&& rest[i].votes == before.top_review_count
                        &&& rest[i].text == before.top_review
                    };
                assert(rest[i] == reviews[i]);
                assert forall|j: int|
                    0 <= j < i && is_of_pair(
                        #[trigger] reviews[j],
                        game,
                        language,
                    ) implies reviews[j].votes < reviews[i].votes by {
                    assert(rest[j] == reviews[j]);
                }
                assert(is_first_maximum(reviews, game, language, i));
            }
        }
    }
}

/// Every language has as many reviews counted as were seen in it, those without a vote
/// included, and the reviews kept for it are those that received a vote, in order.
pub proof fn lemma_language_summary_is_exact(reviews: Seq<ReviewView>, language: Seq<char>)
    ensures
        languages_of(reviews).get(language).review_count == count_of_language(reviews, language),
        languages_of(reviews).get(language).top_reviews == voted_reviews(reviews, language),
    decreases reviews.len(),
{
    if reviews.len() > 0 {
        lemma_language_summary_is_exact(reviews.drop_last(), language);
    }
}

/// A review without a vote is never kept as a voted review.
pub proof fn lemma_kept_reviews_have_votes(reviews: Seq<ReviewView>, language: Seq<char>, i: int)
    requires
        0 <= i < languages_of(reviews).get(language).top_reviews.len(),
    ensures
        languages_of(reviews).get(language).top_reviews[i].votes > 0,
    decreases reviews.len(),
{
    if reviews.len() > 0 {
        let rest = reviews.drop_last();
        if i < languages_of(rest).get(language).top_reviews.len() {
            lemma_kept_reviews_have_votes(rest, language, i);
        }
    }
}

/// The weights of the summaries of a mapping, in the order of its names.
pub open spec fn weights<V>(mapping: Keyed<V>, weight: spec_fn(V) -> nat) -> Seq<nat> {
    Seq::new(mapping.order.len(), |i: int| weight(mapping.items[mapping.order[i]]))
}

/// Setting the summary of one name changes the sum of the weights by the difference between
/// the new weight and the old one, where a new name had weight zero.
pub proof fn lemma_put_changes_one_weight<V: Summary>(
    mapping: Keyed<V>,
    key: Seq<char>,
    value: V,
    weight: spec_fn(V) -> nat,
)
    requires
        mapping.wf(),
    ensures
        sum(weights(mapping.put(key, value), weight)) + (if mapping.items.contains_key(key) {
            weight(mapping.items[key])
        } else {
            0
        }) == sum(weights(mapping, weight)) + weight(value),
{
    let before = weights(mapping, weight);
    let after = weights(mapping.put(key, value), weight);
    if mapping.items.contains_key(key) {
        let place = mapping.order.index_of(key);
        assert forall|i: int| 0 <= i < mapping.order.len() implies after[i] == before.update(
            place,
            weight(value),
        )[i] by {
            lemma_index_of_unique(mapping.order, i);
        }
        assert(after =~= before.update(place, weight(value)));
        lemma_sum_update(before, place, weight(value));
    } else {
        assert forall|i: int| 0 <= i < mapping.order.len() implies after[i] == before[i] by {
            assert(mapping.order.contains(mapping.order[i]));
        }
        assert(after =~= before.push(weight(value)));
        lemma_sum_push(before, weight(value));
    }
}

/// Every review is counted once under its game and once under its language: the review
/// counts of all games add up to the number of reviews, and so do those of all languages.
pub proof fn lemma_every_review_is_counted(reviews: Seq<ReviewView>)
    ensures
        sum(game_counts(games_of(reviews))) == reviews.len(),
        sum(corpus_counts(languages_of(reviews))) == reviews.len(),
    decreases reviews.len(),
{
    let by_game = |game: TopGamesView| game.total_review_count;
    let by_language = |language: LanguageStatsView| language.review_count;
    assert(game_counts(games_of(reviews)) =~= weights(games_of(reviews), by_game));
    assert(corpus_counts(languages_of(reviews)) =~= weights(languages_of(reviews), by_language));
    if reviews.len() > 0 {
        let rest = reviews.drop_last();
        let last = reviews.last();
        lemma_every_review_is_counted(rest);
        lemma_statistics_settled(rest);
        assert(game_counts(games_of(rest)) =~= weights(games_of(rest), by_game));
        assert(corpus_counts(languages_of(rest)) =~= weights(languages_of(rest), by_language));
        lemma_put_changes_one_weight(
            games_of(rest),
            last.game,
            games_of(rest).get(last.game).record(last),
            by_game,
        );
        lemma_put_changes_one_weight(
            languages_of(rest),
            last.language,
            languages_of(rest).get(last.language).record(last),
            by_language,
        );
    }
}

/// Whatever the statistics, the report lists at most three games, at most three languages
/// for each of them, at most three languages overall and at most ten reviews for each of
/// them.
pub proof fn lemma_report_is_bounded(
    games: Keyed<TopGamesView>,
    languages: Keyed<LanguageStatsView>,
)
    ensures
        top_games(games).len() <= TOP_GAMES,
        forall|i: int|
            0 <= i < top_games(games).len() ==> (#[trigger] top_games(games)[i]).languages.len()
                <= TOP_LANGUAGES,
        top_languages(languages).len() <= TOP_LANGUAGES,
        forall|i: int|
            0 <= i < top_languages(languages).len() ==> (#[trigger] top_languages(
                languages,
            )[i]).top_reviews.len() <= TOP_REVIEWS,
{
    lemma_top_selection_exists(game_counts(games), TOP_GAMES as nat);
    lemma_top_selection_exists(corpus_counts(languages), TOP_LANGUAGES as nat);
    assert forall|i: int| 0 <= i < top_games(games).len() implies (#[trigger] top_games(
        games,
    )[i]).languages.len() <= TOP_LANGUAGES by {
        let place = top_picks(game_counts(games), TOP_GAMES as nat)[i];
        lemma_top_selection_exists(
            language_counts(games.items[games.order[place]].languages),
            TOP_LANGUAGES as nat,
        );
    }
    assert forall|i: int| 0 <= i < top_languages(languages).len() implies (#[trigger] top_languages(
        languages,
    )[i]).top_reviews.len() <= TOP_REVIEWS by {
        let place = top_picks(corpus_counts(languages), TOP_LANGUAGES as nat)[i];
        lemma_top_selection_exists(
            vote_counts(languages.items[languages.order[place]].top_reviews),
            TOP_REVIEWS as nat,
        );
    }
}

} // verus!
