use crate::structs::keyed::{
    keyed_from, lemma_empty_merge, lemma_index_of_unique, lemma_keyed_from_push,
    lemma_keyed_from_update, lemma_merge_absorb, lemma_merge_associative, lemma_merge_empty,
    lemma_merge_settled, Keyed, Summary,
};
use crate::structs::structs_json::{views_of, TopReviewEntry, TopReviewEntryView};
use crate::structs::totals::sum;
use vstd::prelude::*;

verus! {

/// The places of the four columns that a review is read from.
#[derive(Debug, Clone, Copy, PartialEq, Eq)]
pub struct Columns {
    pub game: usize,
    pub language: usize,
    pub text: usize,
    pub helpful_votes: usize,
}

/// One review, as read from one record.
#[derive(Debug, Clone, PartialEq, Eq)]
pub struct Review {
    pub game: String,
    pub language: String,
    pub text: String,
    pub votes: u32,
}

/// A review as plain values.
pub struct ReviewView {
    pub game: Seq<char>,
    pub language: Seq<char>,
    pub text: Seq<char>,
    pub votes: nat,
}

impl View for Review {
    type V = ReviewView;

    open spec fn view(&self) -> ReviewView {
        ReviewView {
            game: self.game@,
            language: self.language@,
            text: self.text@,
            votes: self.votes as nat,
        }
    }
}

/// What is known of one language within one game: how many reviews, and the most voted one.
#[derive(Debug, Clone, PartialEq, Eq)]
pub struct TopGamesLanguages {
    pub review_count: u32,
    pub top_review: String,
    pub top_review_count: u32,
}

/// The summary of one language within one game, as plain values.
pub struct TopGamesLanguagesView {
    pub review_count: nat,
    pub top_review: Seq<char>,
    pub top_review_count: nat,
}

impl View for TopGamesLanguages {
    type V = TopGamesLanguagesView;

    open spec fn view(&self) -> TopGamesLanguagesView {
        TopGamesLanguagesView {
            review_count: self.review_count as nat,
            top_review: self.top_review@,
            top_review_count: self.top_review_count as nat,
        }
    }
}

impl Summary for TopGamesLanguagesView {
    /// No review: no text, no votes.
    open spec fn empty() -> Self {
        TopGamesLanguagesView { review_count: 0, top_review: Seq::empty(), top_review_count: 0 }
    }

    /// The counts add up. The top review of `other` replaces that of `self` only if it has
    /// strictly more votes, so on a tie the one on the left stays.
    open spec fn combine(self, other: Self) -> Self {
        if other.top_review_count > self.top_review_count {
            TopGamesLanguagesView {
                review_count: self.review_count + other.review_count,
                top_review: other.top_review,
                top_review_count: other.top_review_count,
            }
        } else {
            TopGamesLanguagesView {
                review_count: self.review_count + other.review_count,
                top_review: self.top_review,
                top_review_count: self.top_review_count,
            }
        }
    }

    /// Where no review has a vote, no text is kept.
    open spec fn settled(self) -> bool {
        self.top_review_count == 0 ==> self.top_review == Seq::<char>::empty()
    }

    proof fn lemma_combine_associative(a: Self, b: Self, c: Self) {
    }

    proof fn lemma_combine_empty(a: Self) {
    }

    proof fn lemma_empty_combine(a: Self) {
    }

    proof fn lemma_settled(a: Self, b: Self) {
    }
}

impl TopGamesLanguagesView {
    /// The summary of a single review. A review without votes leaves no text.
    pub open spec fn of_review(review: ReviewView) -> Self {
        Self::empty().record(review)
    }

    /// Counts one more review, which becomes the top review if it has strictly more votes
    /// than the one so far.
    pub open spec fn record(self, review: ReviewView) -> Self {
        if review.votes > self.top_review_count {
            TopGamesLanguagesView {
                review_count: self.review_count + 1,
                top_review: review.text,
                top_review_count: review.votes,
            }
        } else {
            TopGamesLanguagesView { review_count: self.review_count + 1, ..self }
        }
    }
}

/// What is known of one game: how many reviews, and a summary for each language they are
/// written in.
#[derive(Debug, Clone, PartialEq, Eq)]
pub struct TopGames {
    pub total_review_count: u32,
    pub top_games_languages: Vec<(String, TopGamesLanguages)>,
}

/// The summary of one game, as plain values.
pub struct TopGamesView {
    pub total_review_count: nat,
    pub languages: Keyed<TopGamesLanguagesView>,
}

impl View for TopGames {
    type V = TopGamesView;

    open spec fn view(&self) -> TopGamesView {
        TopGamesView {
            total_review_count: self.total_review_count as nat,
            languages: entries_view(self.top_games_languages@),
        }
    }
}

impl Summary for TopGamesView {
    open spec fn empty() -> Self {
        TopGamesView { total_review_count: 0, languages: Keyed::empty() }
    }

    open spec fn combine(self, other: Self) -> Self {
        TopGamesView {
            total_review_count: self.total_review_count + other.total_review_count,
            languages: self.languages.merge(other.languages),
        }
    }

    /// The languages are listed once each, and none keeps the text of a review without a
    /// vote.
    open spec fn settled(self) -> bool {
        self.languages.settled()
    }

    proof fn lemma_combine_associative(a: Self, b: Self, c: Self) {
        lemma_merge_associative(a.languages, b.languages, c.languages);
    }

    proof fn lemma_combine_empty(a: Self) {
        lemma_merge_empty(a.languages);
    }

    proof fn lemma_empty_combine(a: Self) {
        lemma_empty_merge(a.languages);
    }

    proof fn lemma_settled(a: Self, b: Self) {
        if a.settled() && b.settled() {
            lemma_merge_settled(a.languages, b.languages);
        }
    }
}

impl TopGamesView {
    /// The summary of a game with a single review.
    pub open spec fn of_review(review: ReviewView) -> Self {
        Self::empty().record(review)
    }

    /// Counts one more review of the game, and counts it under its language.
    pub open spec fn record(self, review: ReviewView) -> Self {
        TopGamesView {
            total_review_count: self.total_review_count + 1,
            languages: self.languages.put(
                review.language,
                self.languages.get(review.language).record(review),
            ),
        }
    }
}

/// What is known of one language over all games: how many reviews, and those that received
/// a vote, in the order in which they were seen.
#[derive(Debug, Clone, PartialEq, Eq)]
pub struct LanguageStats {
    pub review_count: u32,
    pub top_reviews: Vec<TopReviewEntry>,
}

/// The summary of one language over all games, as plain values.
pub struct LanguageStatsView {
    pub review_count: nat,
    pub top_reviews: Seq<TopReviewEntryView>,
}

impl View for LanguageStats {
    type V = LanguageStatsView;

    open spec fn view(&self) -> LanguageStatsView {
        LanguageStatsView {
            review_count: self.review_count as nat,
            top_reviews: views_of(self.top_reviews@),
        }
    }
}

impl Summary for LanguageStatsView {
    open spec fn empty() -> Self {
        LanguageStatsView { review_count: 0, top_reviews: Seq::empty() }
    }

    /// The counts add up, and the voted reviews of `other` follow those of `self`.
    open spec fn combine(self, other: Self) -> Self {
        LanguageStatsView {
            review_count: self.review_count + other.review_count,
            top_reviews: self.top_reviews + other.top_reviews,
        }
    }

    /// Every review kept has a vote.
    open spec fn settled(self) -> bool {
        forall|i: int|
            0 <= i < self.top_reviews.len() ==> (#[trigger] self.top_reviews[i]).votes > 0
    }

    proof fn lemma_combine_associative(a: Self, b: Self, c: Self) {
        assert((a.top_reviews + b.top_reviews) + c.top_reviews =~= a.top_reviews + (b.top_reviews
            + c.top_reviews));
    }

    proof fn lemma_combine_empty(a: Self) {
        assert(a.top_reviews + Seq::<TopReviewEntryView>::empty() =~= a.top_reviews);
    }

    proof fn lemma_empty_combine(a: Self) {
        assert(Seq::<TopReviewEntryView>::empty() + a.top_reviews =~= a.top_reviews);
    }

    proof fn lemma_settled(a: Self, b: Self) {
    }
}

impl LanguageStatsView {
    /// The summary of a language with a single review.
    pub open spec fn of_review(review: ReviewView) -> Self {
        Self::empty().record(review)
    }

    /// Counts one more review, and keeps it if it received a vote.
    pub open spec fn record(self, review: ReviewView) -> Self {
        LanguageStatsView {
            review_count: self.review_count + 1,
            top_reviews: if review.votes > 0 {
                self.top_reviews.push(
                    TopReviewEntryView { review: review.text, votes: review.votes },
                )
            } else {
                self.top_reviews
            },
        }
    }
}

/// The names of a list of named entries, in order.
pub open spec fn names_of<V>(entries: Seq<(String, V)>) -> Seq<Seq<char>> {
    Seq::new(entries.len(), |i: int| entries[i].0@)
}

/// A list of named entries as a mapping, in the order of the list.
pub open spec fn entries_view<V: View>(entries: Seq<(String, V)>) -> Keyed<V::V> {
    keyed_from(names_of(entries), Seq::new(entries.len(), |i: int| entries[i].1@))
}

/// The statistics of every game, in the order in which the games were first seen.
///
/// No game is listed twice, the reviews of the languages of each game are those of the
/// game, no text is kept of a review without a vote, and the number of reviews over all
/// games fits the counters.
#[derive(Debug, PartialEq, Eq)]
pub struct GameMap {
    pub(crate) entries: Vec<(String, TopGames)>,
}

impl View for GameMap {
    type V = Keyed<TopGamesView>;

    open(crate) spec fn view(&self) -> Keyed<TopGamesView> {
        entries_view(self.entries@)
    }
}

/// The statistics of every language, in the order in which the languages were first seen.
///
/// No language is listed twice, every review kept for a language has a vote, and the number
/// of reviews over all languages fits the counters.
#[derive(Debug, PartialEq, Eq)]
pub struct LanguageMap {
    pub(crate) entries: Vec<(String, LanguageStats)>,
}

impl View for LanguageMap {
    type V = Keyed<LanguageStatsView>;

    open(crate) spec fn view(&self) -> Keyed<LanguageStatsView> {
        entries_view(self.entries@)
    }
}

impl TopGames {
    /// The review counts of the languages, in order.
    pub open spec fn language_counts(&self) -> Seq<nat> {
        Seq::new(
            self.top_games_languages.len() as nat,
            |i: int| self.top_games_languages[i].1.review_count as nat,
        )
    }

    /// No language is listed twice, the reviews of the languages are those of the game, and
    /// no language keeps the text of a review without a vote.
    pub open spec fn wf(&self) -> bool {
        &&& names_of(self.top_games_languages@).no_duplicates()
        &&& sum(self.language_counts()) == self.total_review_count
        &&& forall|j: int|
            0 <= j < self.top_games_languages.len() ==> (
            #[trigger] self.top_games_languages[j]).1@.settled()
    }
}

/// The review counts of a list of games, in order.
pub open spec fn game_totals(entries: Seq<(String, TopGames)>) -> Seq<nat> {
    Seq::new(entries.len(), |i: int| entries[i].1.total_review_count as nat)
}

/// Whether a list of games lists no game twice, every game in it is well formed, and the
/// number of reviews over all games fits the counters.
pub open spec fn games_wf(entries: Seq<(String, TopGames)>) -> bool {
    &&& names_of(entries).no_duplicates()
    &&& forall|i: int| 0 <= i < entries.len() ==> (#[trigger] entries[i]).1.wf()
    &&& sum(game_totals(entries)) <= u32::MAX
}

/// The review counts of a list of languages, in order.
pub open spec fn language_totals(entries: Seq<(String, LanguageStats)>) -> Seq<nat> {
    Seq::new(entries.len(), |i: int| entries[i].1.review_count as nat)
}

/// Whether a list of languages lists no language twice, every review kept for a language
/// has a vote, and the number of reviews over all languages fits the counters.
pub open spec fn languages_wf(entries: Seq<(String, LanguageStats)>) -> bool {
    &&& names_of(entries).no_duplicates()
    &&& forall|i: int| 0 <= i < entries.len() ==> (#[trigger] entries[i]).1@.settled()
    &&& sum(language_totals(entries)) <= u32::MAX
}

impl GameMap {
    /// The games with their statistics, in order.
    pub open(crate) spec fn listing(&self) -> Seq<(String, TopGames)> {
        self.entries@
    }

    /// The number of reviews counted, over all games.
    pub open(crate) spec fn review_total(&self) -> nat {
        sum(game_totals(self.entries@))
    }

    /// What holds of every value of the type.
    #[verifier::type_invariant]
    pub open(crate) spec fn wf(&self) -> bool {
        games_wf(self.entries@)
    }
}

impl LanguageMap {
    /// The languages with their statistics, in order.
    pub open(crate) spec fn listing(&self) -> Seq<(String, LanguageStats)> {
        self.entries@
    }

    /// The number of reviews counted, over all languages.
    pub open(crate) spec fn review_total(&self) -> nat {
        sum(language_totals(self.entries@))
    }

    /// What holds of every value of the type.
    #[verifier::type_invariant]
    pub open(crate) spec fn wf(&self) -> bool {
        languages_wf(self.entries@)
    }
}

/// Counts one review under its game.
pub open spec fn record_game(games: Keyed<TopGamesView>, review: ReviewView) -> Keyed<
    TopGamesView,
> {
    games.put(review.game, games.get(review.game).record(review))
}

/// Counts one review under its language.
pub open spec fn record_language(
    languages: Keyed<LanguageStatsView>,
    review: ReviewView,
) -> Keyed<LanguageStatsView> {
    languages.put(review.language, languages.get(review.language).record(review))
}

/// The per-game statistics of a sequence of reviews, taken in order.
pub open spec fn games_of(reviews: Seq<ReviewView>) -> Keyed<TopGamesView>
    decreases reviews.len(),
{
    if reviews.len() == 0 {
        Keyed::empty()
    } else {
        record_game(games_of(reviews.drop_last()), reviews.last())
    }
}

/// The per-language statistics of a sequence of reviews, taken in order.
pub open spec fn languages_of(reviews: Seq<ReviewView>) -> Keyed<LanguageStatsView>
    decreases reviews.len(),
{
    if reviews.len() == 0 {
        Keyed::empty()
    } else {
        record_language(languages_of(reviews.drop_last()), reviews.last())
    }
}

/// In a list without repeated names, the mapping lists each name at its place and holds
/// under it the view of the entry at that place.
pub proof fn lemma_entries_view_at<V: View>(entries: Seq<(String, V)>, i: int)
    requires
        names_of(entries).no_duplicates(),
        0 <= i < entries.len(),
    ensures
        entries_view(entries).order.len() == entries.len(),
        entries_view(entries).order[i] == entries[i].0@,
        entries_view(entries).items.contains_key(entries[i].0@),
        entries_view(entries).items[entries[i].0@] == entries[i].1@,
{
    lemma_index_of_unique(names_of(entries), i);
}

/// A list without repeated names whose entries are all settled makes a settled mapping.
pub proof fn lemma_entries_view_settled<V: View>(entries: Seq<(String, V)>)
    where V::V: Summary
    requires
        names_of(entries).no_duplicates(),
        forall|i: int| 0 <= i < entries.len() ==> (#[trigger] entries[i]).1@.settled(),
    ensures
        entries_view(entries).settled(),
{
    let mapping = entries_view(entries);
    assert forall|k: Seq<char>| mapping.items.contains_key(k) implies (
    #[trigger] mapping.items[k]).settled() by {
        let i = names_of(entries).index_of(k);
        assert(mapping.items[k] == entries[i].1@);
    }
}

/// A well-formed list of games makes a settled mapping.
pub proof fn lemma_games_settled(entries: Seq<(String, TopGames)>)
    requires
        games_wf(entries),
    ensures
        entries_view(entries).settled(),
{
    assert forall|i: int| 0 <= i < entries.len() implies (#[trigger] entries[i]).1@.settled() by {
        lemma_entries_view_settled(entries[i].1.top_games_languages@);
    }
    lemma_entries_view_settled(entries);
}

/// Appending an entry under a new name puts its view under that name.
pub proof fn lemma_entries_view_push<V: View>(entries: Seq<(String, V)>, entry: (String, V))
    where V::V: Summary
    requires
        names_of(entries).no_duplicates(),
        !names_of(entries).contains(entry.0@),
    ensures
        names_of(entries.push(entry)) == names_of(entries).push(entry.0@),
        names_of(entries.push(entry)).no_duplicates(),
        entries_view(entries.push(entry)) == entries_view(entries).put(entry.0@, entry.1@),
{
    let values = Seq::new(entries.len(), |i: int| entries[i].1@);
    let grown = entries.push(entry);
    assert(names_of(grown) =~= names_of(entries).push(entry.0@));
    assert(Seq::new(grown.len(), |i: int| grown[i].1@) =~= values.push(entry.1@));
    lemma_keyed_from_push(names_of(entries), values, entry.0@, entry.1@);
}

/// Replacing an entry by one of the same name puts the view of the new one under that name.
pub proof fn lemma_entries_view_update<V: View>(
    entries: Seq<(String, V)>,
    i: int,
    entry: (String, V),
)
    where V::V: Summary
    requires
        names_of(entries).no_duplicates(),
        0 <= i < entries.len(),
        entry.0@ == entries[i].0@,
    ensures
        names_of(entries.update(i, entry)) == names_of(entries),
        entries_view(entries.update(i, entry)) == entries_view(entries).put(
            entry.0@,
            entry.1@,
        ),
        entries_view(entries).items.contains_key(entry.0@),
        entries_view(entries).get(entry.0@) == entries[i].1@,
{
    let values = Seq::new(entries.len(), |j: int| entries[j].1@);
    let changed = entries.update(i, entry);
    assert(names_of(changed) =~= names_of(entries));
    assert(Seq::new(changed.len(), |j: int| changed[j].1@) =~= values.update(i, entry.1@));
    lemma_keyed_from_update(names_of(entries), values, i, entry.1@);
    lemma_index_of_unique(names_of(entries), i);
}

/// Counting a review is combining the summary of that single review.
pub proof fn lemma_record_is_absorb(review: ReviewView)
    ensures
        forall|t: TopGamesLanguagesView|
            #[trigger] t.record(review) == t.combine(TopGamesLanguagesView::of_review(review)),
        forall|g: TopGamesView| #[trigger]
            g.record(review) == g.combine(TopGamesView::of_review(review)),
        forall|l: LanguageStatsView| #[trigger]
            l.record(review) == l.combine(LanguageStatsView::of_review(review)),
{
    assert forall|g: TopGamesView| #[trigger]
        g.record(review) == g.combine(TopGamesView::of_review(review)) by {
        let single = TopGamesLanguagesView::of_review(review);
        let none = Keyed::<TopGamesLanguagesView>::empty();
        lemma_merge_absorb(g.languages, none, review.language, single);
        lemma_merge_empty(g.languages);
        assert(none.absorb(review.language, single) == TopGamesView::of_review(
            review,
        ).languages);
        assert(g.languages.absorb(review.language, single) == g.record(review).languages);
    }
    assert forall|l: LanguageStatsView| #[trigger]
        l.record(review) == l.combine(LanguageStatsView::of_review(review)) by {
        let single = LanguageStatsView::of_review(review);
        assert(l.top_reviews + single.top_reviews =~= l.record(review).top_reviews);
    }
}

} // verus!
