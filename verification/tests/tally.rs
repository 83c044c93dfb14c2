use review_stats::body::tally::{position_of, slot_for};
use review_stats::structs::structs_json::TopReviewEntry;
use review_stats::structs::structs_process_data::{
    LanguageStats, Review, TopGames, TopGamesLanguages,
};

fn review(language: &str, text: &str, votes: u32) -> Review {
    Review {
        game: "G".to_string(),
        language: language.to_string(),
        text: text.to_string(),
        votes,
    }
}

fn tally(count: u32, text: &str, votes: u32) -> TopGamesLanguages {
    TopGamesLanguages { review_count: count, top_review: text.to_string(), top_review_count: votes }
}

fn kept(text: &str, votes: u32) -> TopReviewEntry {
    TopReviewEntry { review: text.to_string(), votes }
}

#[test]
fn entry_is_found_by_its_name() {
    let entries = vec![("a".to_string(), 1), ("b".to_string(), 2), ("c".to_string(), 3)];
    assert_eq!(position_of(&entries, &"a".to_string()), Some(0));
    assert_eq!(position_of(&entries, &"c".to_string()), Some(2));
    assert_eq!(position_of(&entries, &"d".to_string()), None);
    assert_eq!(position_of(&entries, &"".to_string()), None);
    assert_eq!(position_of(&Vec::<(String, u8)>::new(), &"a".to_string()), None);
}

#[test]
fn new_name_gets_a_fresh_entry_at_the_end() {
    let mut entries = vec![("a".to_string(), 1), ("b".to_string(), 2)];
    assert_eq!(slot_for(&mut entries, &"b".to_string(), 9), 1);
    assert_eq!(entries, vec![("a".to_string(), 1), ("b".to_string(), 2)]);
    assert_eq!(slot_for(&mut entries, &"c".to_string(), 9), 2);
    assert_eq!(entries, vec![("a".to_string(), 1), ("b".to_string(), 2), ("c".to_string(), 9)]);
}

#[test]
fn default_summaries_are_empty() {
    assert_eq!(TopGamesLanguages::default(), tally(0, "", 0));
    assert_eq!(
        TopGames::default(),
        TopGames { total_review_count: 0, top_games_languages: Vec::new() }
    );
    assert_eq!(
        LanguageStats::default(),
        LanguageStats { review_count: 0, top_reviews: Vec::new() }
    );
}

#[test]
fn review_replaces_the_top_review_only_with_more_votes() {
    let mut summary = TopGamesLanguages::default();
    summary.record(&review("EN", "none", 0));
    assert_eq!(summary, tally(1, "", 0));
    summary.record(&review("EN", "five", 5));
    assert_eq!(summary, tally(2, "five", 5));
    summary.record(&review("EN", "also five", 5));
    assert_eq!(summary, tally(3, "five", 5));
    summary.record(&review("EN", "four", 4));
    assert_eq!(summary, tally(4, "five", 5));
    summary.record(&review("EN", "six", 6));
    assert_eq!(summary, tally(5, "six", 6));
}

#[test]
fn summaries_combine_with_the_left_one_winning_a_tie() {
    let mut left = tally(2, "left", 7);
    left.absorb(&tally(3, "right", 7));
    assert_eq!(left, tally(5, "left", 7));
    let mut left = tally(2, "left", 7);
    left.absorb(&tally(3, "right", 8));
    assert_eq!(left, tally(5, "right", 8));
    let mut left = tally(2, "left", 7);
    left.absorb(&TopGamesLanguages::default());
    assert_eq!(left, tally(2, "left", 7));
    let mut empty = TopGamesLanguages::default();
    empty.absorb(&tally(3, "right", 1));
    assert_eq!(empty, tally(3, "right", 1));
}

#[test]
fn game_counts_each_review_under_its_language() {
    let mut game = TopGames::default();
    game.record(&review("EN", "a", 1));
    game.record(&review("ES", "b", 0));
    game.record(&review("EN", "c", 3));
    assert_eq!(
        game,
        TopGames {
            total_review_count: 3,
            top_games_languages: vec![
                ("EN".to_string(), tally(2, "c", 3)),
                ("ES".to_string(), tally(1, "", 0)),
            ],
        }
    );
}

#[test]
fn games_combine_language_by_language() {
    let mut left = TopGames {
        total_review_count: 3,
        top_games_languages: vec![
            ("EN".to_string(), tally(2, "c", 3)),
            ("ES".to_string(), tally(1, "", 0)),
        ],
    };
    let right = TopGames {
        total_review_count: 6,
        top_games_languages: vec![
            ("FR".to_string(), tally(1, "f", 2)),
            ("ES".to_string(), tally(4, "e", 9)),
            ("EN".to_string(), tally(1, "d", 3)),
        ],
    };
    left.absorb(&right);
    assert_eq!(
        left,
        TopGames {
            total_review_count: 9,
            top_games_languages: vec![
                ("EN".to_string(), tally(3, "c", 3)),
                ("ES".to_string(), tally(5, "e", 9)),
                ("FR".to_string(), tally(1, "f", 2)),
            ],
        }
    );
}

#[test]
fn language_keeps_the_reviews_with_votes() {
    let mut language = LanguageStats::default();
    language.record(&review("EN", "a", 2));
    language.record(&review("EN", "b", 0));
    language.record(&review("EN", "c", 1));
    assert_eq!(
        language,
        LanguageStats { review_count: 3, top_reviews: vec![kept("a", 2), kept("c", 1)] }
    );
}

#[test]
fn languages_combine_by_adding_counts_and_appending_reviews() {
    let mut left = LanguageStats { review_count: 3, top_reviews: vec![kept("a", 2), kept("c", 1)] };
    let right = LanguageStats { review_count: 2, top_reviews: vec![kept("d", 5)] };
    left.absorb(&right);
    assert_eq!(
        left,
        LanguageStats {
            review_count: 5,
            top_reviews: vec![kept("a", 2), kept("c", 1), kept("d", 5)],
        }
    );
    left.absorb(&LanguageStats::default());
    assert_eq!(left.review_count, 5);
    assert_eq!(left.top_reviews.len(), 3);
}
