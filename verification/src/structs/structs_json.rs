use vstd::prelude::*;

verus! {

/// The report: an identifying number, the top games and the top languages.
#[derive(Debug, Clone, PartialEq, Eq)]
pub struct OutputJson {
    pub padron: u32,
    pub top_games: Vec<TopGamesEntry>,
    pub top_languages: Vec<TopLanguagesEntry>,
}

/// One ranked game with its ranked languages.
#[derive(Debug, Clone, PartialEq, Eq)]
pub struct TopGamesEntry {
    pub game: String,
    pub review_count: u32,
    pub languages: Vec<LanguageEntry>,
}

/// One language of a ranked game, with the most voted review written in it.
#[derive(Debug, Clone, PartialEq, Eq)]
pub struct LanguageEntry {
    pub language: String,
    pub review_count: u32,
    pub top_review: String,
    pub top_review_votes: u32,
}

/// One ranked language with its most voted reviews.
#[derive(Debug, Clone, PartialEq, Eq)]
pub struct TopLanguagesEntry {
    pub language: String,
    pub review_count: u32,
    pub top_reviews: Vec<TopReviewEntry>,
}

/// A review and the votes it received.
#[derive(Debug, Clone, PartialEq, Eq)]
pub struct TopReviewEntry {
    pub review: String,
    pub votes: u32,
}

/// A review and its votes, as plain values.
pub struct TopReviewEntryView {
    pub review: Seq<char>,
    pub votes: nat,
}

/// One language of a ranked game, as plain values.
pub struct LanguageEntryView {
    pub language: Seq<char>,
    pub review_count: nat,
    pub top_review: Seq<char>,
    pub top_review_votes: nat,
}

/// One ranked game, as plain values.
pub struct TopGamesEntryView {
    pub game: Seq<char>,
    pub review_count: nat,
    pub languages: Seq<LanguageEntryView>,
}

/// One ranked language, as plain values.
pub struct TopLanguagesEntryView {
    pub language: Seq<char>,
    pub review_count: nat,
    pub top_reviews: Seq<TopReviewEntryView>,
}

/// The report, as plain values.
pub struct OutputJsonView {
    pub padron: nat,
    pub top_games: Seq<TopGamesEntryView>,
    pub top_languages: Seq<TopLanguagesEntryView>,
}

impl View for TopReviewEntry {
    type V = TopReviewEntryView;

    open spec fn view(&self) -> TopReviewEntryView {
        TopReviewEntryView { review: self.review@, votes: self.votes as nat }
    }
}

impl View for LanguageEntry {
    type V = LanguageEntryView;

    open spec fn view(&self) -> LanguageEntryView {
        LanguageEntryView {
            language: self.language@,
            review_count: self.review_count as nat,
            top_review: self.top_review@,
            top_review_votes: self.top_review_votes as nat,
        }
    }
}

impl View for TopGamesEntry {
    type V = TopGamesEntryView;

    open spec fn view(&self) -> TopGamesEntryView {
        TopGamesEntryView {
            game: self.game@,
            review_count: self.review_count as nat,
            languages: views_of(self.languages@),
        }
    }
}

impl View for TopLanguagesEntry {
    type V = TopLanguagesEntryView;

    open spec fn view(&self) -> TopLanguagesEntryView {
        TopLanguagesEntryView {
            language: self.language@,
            review_count: self.review_count as nat,
            top_reviews: views_of(self.top_reviews@),
        }
    }
}

impl View for OutputJson {
    type V = OutputJsonView;

    open spec fn view(&self) -> OutputJsonView {
        OutputJsonView {
            padron: self.padron as nat,
            top_games: views_of(self.top_games@),
            top_languages: views_of(self.top_languages@),
        }
    }
}

/// The views of the items of a sequence, in the same order.
pub open spec fn views_of<T: View>(items: Seq<T>) -> Seq<T::V> {
    Seq::new(items.len(), |i: int| items[i]@)
}

} // verus!
