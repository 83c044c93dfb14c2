use crate::body::filter_data::{corpus_counts, game_counts};
use crate::structs::keyed::{lemma_merge_empty, lemma_merge_put_new, Keyed, Summary};
use crate::structs::structs_json::{views_of, TopReviewEntry};
use crate::structs::structs_process_data::{
    entries_view, game_totals, games_wf, language_totals, languages_wf, lemma_entries_view_at,
    lemma_entries_view_push, lemma_entries_view_settled, lemma_entries_view_update,
    lemma_games_settled, names_of, record_game, record_language, GameMap, LanguageMap,
    LanguageStats, LanguageStatsView, Review, TopGames, TopGamesLanguages,
    TopGamesLanguagesView, TopGamesView,
};
use crate::structs::totals::{
    lemma_sum_bounds, lemma_sum_push, lemma_sum_take, lemma_sum_take_bounds, lemma_sum_update,
    sum,
};
use vstd::prelude::*;

verus! {

/// The place of the entry named `key`, if there is one.
pub fn position_of<V>(entries: &Vec<(String, V)>, key: &String) -> (found: Option<usize>)
    ensures
        match found {
            Some(i) => {
                &&& i < entries.len()
                &&& names_of(entries@)[i as int] == key@
                &&& forall|j: int| 0 <= j < i ==> names_of(entries@)[j] != key@
            },
            None => !names_of(entries@).contains(key@),
        },
{
    let mut i: usize = 0;
    while i < entries.len()
        invariant
            i <= entries.len(),
            forall|j: int| 0 <= j < i ==> names_of(entries@)[j] != key@,
        decreases entries.len() - i,
    {
        if entries[i].0 == *key {
            return Some(i);
        }
        i += 1;
    }
    None
}

/// The place of the entry named `key`; where there is none yet, `fresh` is appended under
/// that name first.
pub fn slot_for<V>(entries: &mut Vec<(String, V)>, key: &String, fresh: V) -> (slot: usize)
    ensures
        slot < final(entries).len(),
        names_of(final(entries)@)[slot as int] == key@,
        forall|j: int| 0 <= j < slot ==> names_of(final(entries)@)[j] != key@,
        names_of(old(entries)@).contains(key@) ==> final(entries)@ == old(entries)@,
        !names_of(old(entries)@).contains(key@) ==> slot == old(entries).len()
            && final(entries)@ == old(entries)@.push((*key, fresh)),
{
    match position_of(entries, key) {
        Some(i) => {
            assert(names_of(entries@)[i as int] == key@);
            i
        },
        None => {
            let ghost before = names_of(entries@);
            entries.push((key.clone(), fresh));
            assert forall|j: int| 0 <= j < before.len() implies names_of(entries@)[j] != key@ by {
                assert(names_of(entries@)[j] == before[j]);
            }
            entries.len() - 1
        },
    }
}

impl Default for TopGamesLanguages {
    /// No review yet.
    fn default() -> (fresh: Self)
        ensures
            fresh@ == TopGamesLanguagesView::empty(),
    {
        TopGamesLanguages { review_count: 0, top_review: String::new(), top_review_count: 0 }
    }
}

impl Default for TopGames {
    /// No review yet.
    fn default() -> (fresh: Self)
        ensures
            fresh@ == TopGamesView::empty(),
            fresh.wf(),
    {
        let fresh = TopGames { total_review_count: 0, top_games_languages: Vec::new() };
        assert(fresh@.languages =~= Keyed::empty());
        fresh
    }
}

impl Default for LanguageStats {
    /// No review yet.
    fn default() -> (fresh: Self)
        ensures
            fresh@ == LanguageStatsView::empty(),
    {
        let fresh = LanguageStats { review_count: 0, top_reviews: Vec::new() };
        assert(fresh@.top_reviews =~= Seq::empty());
        fresh
    }
}

impl Default for GameMap {
    /// No game yet.
    fn default() -> (fresh: Self)
        ensures
            fresh@ == Keyed::<TopGamesView>::empty(),
            fresh.review_total() == 0,
    {
        let fresh = GameMap { entries: Vec::new() };
        assert(fresh@ =~= Keyed::empty());
        fresh
    }
}

impl Default for LanguageMap {
    /// No language yet.
    fn default() -> (fresh: Self)
        ensures
            fresh@ == Keyed::<LanguageStatsView>::empty(),
            fresh.review_total() == 0,
    {
        let fresh = LanguageMap { entries: Vec::new() };
        assert(fresh@ =~= Keyed::empty());
        fresh
    }
}

impl TopGamesLanguages {
    /// Counts one more review, which becomes the top review if it has strictly more votes.
    pub fn record(&mut self, review: &Review)
        requires
            old(self).review_count < u32::MAX,
        ensures
            final(self)@ == old(self)@.record(review@),
    {
        self.review_count = self.review_count + 1;
        if review.votes > self.top_review_count {
            self.top_review = review.text.clone();
            self.top_review_count = review.votes;
        }
    }
}

impl TopGames {
    /// Counts one more review of the game, and counts it under its language.
    pub fn record(&mut self, review: &Review)
        requires
            old(self).wf(),
            old(self).total_review_count < u32::MAX,
        ensures
            final(self).wf(),
            final(self)@ == old(self)@.record(review@),
    {
        let fresh = TopGamesLanguages::default();
        let ghost before = self.top_games_languages@;
        let ghost counts = self.language_counts();
        let slot = slot_for(&mut self.top_games_languages, &review.language, fresh);
        let ghost listed = self.top_games_languages@;
        proof {
            if names_of(before).contains(review.language@) {
            } else {
                lemma_entries_view_push(before, (review.language, fresh));
                lemma_sum_push(counts, 0);
                assert(self.language_counts() =~= counts.push(0));
            }
            lemma_sum_bounds(self.language_counts(), slot as int);
        }
        self.total_review_count = self.total_review_count + 1;
        self.top_games_languages[slot].1.record(review);
        proof {
            let changed = self.top_games_languages@;
            assert(changed =~= listed.update(slot as int, changed[slot as int]));
            lemma_entries_view_update(listed, slot as int, changed[slot as int]);
            lemma_sum_update(
                Seq::new(listed.len(), |i: int| listed[i].1.review_count as nat),
                slot as int,
                changed[slot as int].1.review_count as nat,
            );
            assert(self.language_counts() =~= Seq::new(
                listed.len(),
                |i: int| listed[i].1.review_count as nat,
            ).update(slot as int, changed[slot as int].1.review_count as nat));
            assert(self@.languages =~= old(self)@.record(review@).languages);
        }
    }
}

/// Counts one more review under its game, in a list of games.
pub(crate) fn record_game_in(entries: &mut Vec<(String, TopGames)>, review: &Review)
    requires
        games_wf(old(entries)@),
        sum(game_totals(old(entries)@)) < u32::MAX,
    ensures
        games_wf(final(entries)@),
        entries_view(final(entries)@) == record_game(entries_view(old(entries)@), review@),
        sum(game_totals(final(entries)@)) == sum(game_totals(old(entries)@)) + 1,
{
    let fresh = TopGames::default();
    let ghost before = entries@;
    let ghost totals = game_totals(entries@);
    let slot = slot_for(entries, &review.game, fresh);
    let ghost listed = entries@;
    proof {
        if names_of(before).contains(review.game@) {
        } else {
            lemma_entries_view_push(before, (review.game, fresh));
            lemma_sum_push(totals, 0);
            assert(game_totals(listed) =~= totals.push(0));
        }
        lemma_sum_bounds(game_totals(listed), slot as int);
    }
    entries[slot].1.record(review);
    proof {
        let changed = entries@;
        assert(changed =~= listed.update(slot as int, changed[slot as int]));
        lemma_entries_view_update(listed, slot as int, changed[slot as int]);
        lemma_sum_update(
            game_totals(listed),
            slot as int,
            changed[slot as int].1.total_review_count as nat,
        );
        assert(game_totals(changed) =~= game_totals(listed).update(
            slot as int,
            changed[slot as int].1.total_review_count as nat,
        ));
        assert(entries_view(changed) =~= record_game(entries_view(before), review@));
    }
}

impl GameMap {
    /// The games with their statistics, in the order in which the games were first seen.
    pub fn entries(&self) -> (listed: &Vec<(String, TopGames)>)
        ensures
            listed@ == self.listing(),
            games_wf(listed@),
            entries_view(listed@) == self@,
            self@.settled(),
    {
        proof {
            use_type_invariant(self);
            lemma_games_settled(self.entries@);
        }
        &self.entries
    }

    /// The statistics of the game of the given name, if the game is known.
    pub fn get(&self, game: &String) -> (found: Option<&TopGames>)
        ensures
            match found {
                Some(statistics) => {
                    &&& self@.items.contains_key(game@)
                    &&& statistics@ == self@.items[game@]
                    &&& statistics.wf()
                },
                None => !self@.items.contains_key(game@),
            },
    {
        proof {
            use_type_invariant(self);
        }
        match position_of(&self.entries, game) {
            Some(i) => {
                proof {
                    lemma_entries_view_at(self.entries@, i as int);
                }
                Some(&self.entries[i].1)
            },
            None => None,
        }
    }

    /// The number of reviews counted, over all games: the sum of their review counts.
    pub fn reviews(&self) -> (total: u32)
        ensures
            total == self.review_total(),
            total == sum(game_counts(self@)),
    {
        proof {
            use_type_invariant(self);
            assert forall|i: int| 0 <= i < self.entries.len() implies game_totals(
                self.entries@,
            )[i] == game_counts(self@)[i] by {
                lemma_entries_view_at(self.entries@, i);
            }
            assert(game_totals(self.entries@) =~= game_counts(self@));
        }
        let ghost totals = game_totals(self.entries@);
        let mut total: u32 = 0;
        let mut i: usize = 0;
        assert(totals.take(0) =~= Seq::empty());
        while i < self.entries.len()
            invariant
                i <= self.entries.len(),
                totals == game_totals(self.entries@),
                sum(totals) <= u32::MAX,
                total == sum(totals.take(i as int)),
            decreases self.entries.len() - i,
        {
            proof {
                lemma_sum_take(totals, i as int);
                lemma_sum_take_bounds(totals, i as int + 1);
            }
            total = total + self.entries[i].1.total_review_count;
            i += 1;
        }
        assert(totals.take(i as int) =~= totals);
        total
    }

    /// Counts one more review under its game. There must be room for it in the counters.
    pub fn record(&mut self, review: &Review)
        requires
            old(self).review_total() < u32::MAX,
        ensures
            final(self)@ == record_game(old(self)@, review@),
            final(self).review_total() == old(self).review_total() + 1,
    {
        proof {
            use_type_invariant(&*self);
        }
        let mut entries: Vec<(String, TopGames)> = Vec::new();
        core::mem::swap(&mut self.entries, &mut entries);
        record_game_in(&mut entries, review);
        self.entries = entries;
    }
}

impl LanguageStats {
    /// Counts one more review, and keeps it if it received a vote.
    pub fn record(&mut self, review: &Review)
        requires
            old(self).review_count < u32::MAX,
        ensures
            final(self)@ == old(self)@.record(review@),
    {
        self.review_count = self.review_count + 1;
        if review.votes > 0 {
            let kept = TopReviewEntry { review: review.text.clone(), votes: review.votes };
            self.top_reviews.push(kept);
        }
        assert(self@.top_reviews =~= old(self)@.record(review@).top_reviews);
    }
}

/// Counts one more review under its language, in a list of languages.
pub(crate) fn record_language_in(entries: &mut Vec<(String, LanguageStats)>, review: &Review)
    requires
        languages_wf(old(entries)@),
        sum(language_totals(old(entries)@)) < u32::MAX,
    ensures
        languages_wf(final(entries)@),
        entries_view(final(entries)@) == record_language(entries_view(old(entries)@), review@),
        sum(language_totals(final(entries)@)) == sum(language_totals(old(entries)@)) + 1,
{
    let fresh = LanguageStats::default();
    let ghost before = entries@;
    let ghost totals = language_totals(entries@);
    let slot = slot_for(entries, &review.language, fresh);
    let ghost listed = entries@;
    proof {
        if names_of(before).contains(review.language@) {
        } else {
            lemma_entries_view_push(before, (review.language, fresh));
            lemma_sum_push(totals, 0);
            assert(language_totals(listed) =~= totals.push(0));
        }
        lemma_sum_bounds(language_totals(listed), slot as int);
    }
    entries[slot].1.record(review);
    proof {
        let changed = entries@;
        assert(changed =~= listed.update(slot as int, changed[slot as int]));
        lemma_entries_view_update(listed, slot as int, changed[slot as int]);
        lemma_sum_update(
            language_totals(listed),
            slot as int,
            changed[slot as int].1.review_count as nat,
        );
        assert(language_totals(changed) =~= language_totals(listed).update(
            slot as int,
            changed[slot as int].1.review_count as nat,
        ));
        assert(entries_view(changed) =~= record_language(entries_view(before), review@));
    }
}

impl LanguageMap {
    /// The languages with their statistics, in the order in which the languages were first
    /// seen.
    pub fn entries(&self) -> (listed: &Vec<(String, LanguageStats)>)
        ensures
            listed@ == self.listing(),
            languages_wf(listed@),
            entries_view(listed@) == self@,
            self@.settled(),
    {
        proof {
            use_type_invariant(self);
            lemma_entries_view_settled(self.entries@);
        }
        &self.entries
    }

    /// The statistics of the language of the given name, if the language is known.
    pub fn get(&self, language: &String) -> (found: Option<&LanguageStats>)
        ensures
            match found {
                Some(statistics) => {
                    &&& self@.items.contains_key(language@)
                    &&& statistics@ == self@.items[language@]
                    &&& statistics@.settled()
                },
                None => !self@.items.contains_key(language@),
            },
    {
        proof {
            use_type_invariant(self);
        }
        match position_of(&self.entries, language) {
            Some(i) => {
                proof {
                    lemma_entries_view_at(self.entries@, i as int);
                }
                Some(&self.entries[i].1)
            },
            None => None,
        }
    }

    /// The number of reviews counted, over all languages: the sum of their review counts.
    pub fn reviews(&self) -> (total: u32)
        ensures
            total == self.review_total(),
            total == sum(corpus_counts(self@)),
    {
        proof {
            use_type_invariant(self);
            assert forall|i: int| 0 <= i < self.entries.len() implies language_totals(
                self.entries@,
            )[i] == corpus_counts(self@)[i] by {
                lemma_entries_view_at(self.entries@, i);
            }
            assert(language_totals(self.entries@) =~= corpus_counts(self@));
        }
        let ghost totals = language_totals(self.entries@);
        let mut total: u32 = 0;
        let mut i: usize = 0;
        assert(totals.take(0) =~= Seq::empty());
        while i < self.entries.len()
            invariant
                i <= self.entries.len(),
                totals == language_totals(self.entries@),
                sum(totals) <= u32::MAX,
                total == sum(totals.take(i as int)),
            decreases self.entries.len() - i,
        {
            proof {
                lemma_sum_take(totals, i as int);
                lemma_sum_take_bounds(totals, i as int + 1);
            }
            total = total + self.entries[i].1.review_count;
            i += 1;
        }
        assert(totals.take(i as int) =~= totals);
        total
    }

    /// Counts one more review under its language. There must be room for it in the
    /// counters.
    pub fn record(&mut self, review: &Review)
        requires
            old(self).review_total() < u32::MAX,
        ensures
            final(self)@ == record_language(old(self)@, review@),
            final(self).review_total() == old(self).review_total() + 1,
    {
        proof {
            use_type_invariant(&*self);
        }
        let mut entries: Vec<(String, LanguageStats)> = Vec::new();
        core::mem::swap(&mut self.entries, &mut entries);
        record_language_in(&mut entries, review);
        self.entries = entries;
    }
}

impl TopGamesLanguages {
    /// Combines the summary `other` into this one: the counts add up, and the top review of
    /// `other` replaces this one only if it has strictly more votes.
    pub fn absorb(&mut self, other: &TopGamesLanguages)
        requires
            old(self).review_count + other.review_count <= u32::MAX,
        ensures
            final(self)@ == old(self)@.combine(other@),
    {
        self.review_count = self.review_count + other.review_count;
        if other.top_review_count > self.top_review_count {
            self.top_review = other.top_review.clone();
            self.top_review_count = other.top_review_count;
        }
    }
}

impl TopGames {
    /// Combines the statistics `other` of the same game into these.
    pub fn absorb(&mut self, other: &TopGames)
        requires
            old(self).wf(),
            other.wf(),
            old(self).total_review_count + other.total_review_count <= u32::MAX,
        ensures
            final(self).wf(),
            final(self)@ == old(self)@.combine(other@),
    {
        let ghost mine = self@.languages;
        let ghost theirs = other.top_games_languages@;
        let ghost their_counts = other.language_counts();
        proof {
            lemma_merge_empty(mine);
            assert(entries_view(theirs.take(0)) =~= Keyed::empty());
            assert(their_counts.take(0) =~= Seq::empty());
        }
        let mut j: usize = 0;
        while j < other.top_games_languages.len()
            invariant
                j <= other.top_games_languages.len(),
                theirs == other.top_games_languages@,
                their_counts == other.language_counts(),
                other.wf(),
                names_of(self.top_games_languages@).no_duplicates(),
                forall|i: int|
                    0 <= i < self.top_games_languages.len() ==> (
                    #[trigger] self.top_games_languages[i]).1@.settled(),
                self.total_review_count == old(self).total_review_count,
                old(self).total_review_count + other.total_review_count <= u32::MAX,
                sum(self.language_counts()) == old(self).total_review_count + sum(
                    their_counts.take(j as int),
                ),
                self@.languages == mine.merge(entries_view(theirs.take(j as int))),
            decreases other.top_games_languages.len() - j,
        {
            let fresh = TopGamesLanguages::default();
            let ghost before = self.top_games_languages@;
            let ghost counts = self.language_counts();
            let ghost key = theirs[j as int].0;
            let name = &other.top_games_languages[j].0;
            let slot = slot_for(&mut self.top_games_languages, name, fresh);
            let ghost listed = self.top_games_languages@;
            proof {
                if names_of(before).contains(key@) {
                } else {
                    lemma_entries_view_push(before, (key, fresh));
                    lemma_sum_push(counts, 0);
                    assert(self.language_counts() =~= counts.push(0));
                }
                lemma_sum_bounds(self.language_counts(), slot as int);
                lemma_sum_take(their_counts, j as int);
                lemma_sum_take_bounds(their_counts, j as int + 1);
            }
            self.top_games_languages[slot].1.absorb(&other.top_games_languages[j].1);
            proof {
                let changed = self.top_games_languages@;
                assert(changed =~= listed.update(slot as int, changed[slot as int]));
                lemma_entries_view_update(listed, slot as int, changed[slot as int]);
                let listed_counts = Seq::new(
                    listed.len(),
                    |i: int| listed[i].1.review_count as nat,
                );
                lemma_sum_update(
                    listed_counts,
                    slot as int,
                    changed[slot as int].1.review_count as nat,
                );
                assert(self.language_counts() =~= listed_counts.update(
                    slot as int,
                    changed[slot as int].1.review_count as nat,
                ));
                let seen = theirs.take(j as int);
                assert(theirs.take(j as int + 1) =~= seen.push(theirs[j as int]));
                assert(names_of(seen) =~= names_of(theirs).take(j as int));
                assert(!names_of(seen).contains(key@)) by {
                    if names_of(seen).contains(key@) {
                        let i = choose|i: int| 0 <= i < seen.len() && names_of(seen)[i] == key@;
                        assert(names_of(theirs)[i] == names_of(theirs)[j as int]);
                    }
                }
                lemma_entries_view_push(seen, theirs[j as int]);
                lemma_merge_put_new(mine, entries_view(seen), key@, theirs[j as int].1@);
                assert(self@.languages =~= mine.merge(entries_view(seen)).absorb(
                    key@,
                    theirs[j as int].1@,
                ));
            }
            j += 1;
        }
        proof {
            assert(theirs.take(j as int) =~= theirs);
            assert(their_counts.take(j as int) =~= their_counts);
        }
        self.total_review_count = self.total_review_count + other.total_review_count;
    }
}

impl LanguageStats {
    /// Combines the statistics `other` of the same language into these: the counts add up,
    /// and the voted reviews of `other` follow those already kept.
    pub fn absorb(&mut self, other: &LanguageStats)
        requires
            old(self).review_count + other.review_count <= u32::MAX,
        ensures
            final(self)@ == old(self)@.combine(other@),
    {
        self.review_count = self.review_count + other.review_count;
        let mut i: usize = 0;
        while i < other.top_reviews.len()
            invariant
                i <= other.top_reviews.len(),
                self.review_count == old(self).review_count + other.review_count,
                views_of(self.top_reviews@) == old(self)@.top_reviews + other@.top_reviews.take(
                    i as int,
                ),
            decreases other.top_reviews.len() - i,
        {
            let kept = TopReviewEntry {
                review: other.top_reviews[i].review.clone(),
                votes: other.top_reviews[i].votes,
            };
            let ghost kept_so_far = self.top_reviews@;
            self.top_reviews.push(kept);
            proof {
                assert(views_of(self.top_reviews@) =~= views_of(kept_so_far).push(kept@));
                assert(other@.top_reviews.take(i as int + 1) =~= other@.top_reviews.take(
                    i as int,
                ).push(other@.top_reviews[i as int]));
            }
            i += 1;
        }
        assert(other@.top_reviews.take(i as int) =~= other@.top_reviews);
    }
}

} // verus!
