use review_stats::body::process_data::{accumulate, read_review};
use review_stats::errors::ErrorType;
use review_stats::structs::structs_process_data::{
    Columns, GameMap, LanguageMap, Review, TopGames, TopGamesLanguages,
};

const COLUMNS: Columns = Columns { game: 0, language: 1, text: 2, helpful_votes: 3 };

fn row(fields: &[&str]) -> Vec<String> {
    fields.iter().map(|field| field.to_string()).collect()
}

fn review(game: &str, language: &str, text: &str, votes: u32) -> Review {
    Review {
        game: game.to_string(),
        language: language.to_string(),
        text: text.to_string(),
        votes,
    }
}

fn game<'a>(games: &'a GameMap, name: &str) -> &'a TopGames {
    games.get(&name.to_string()).unwrap()
}

fn pair<'a>(games: &'a GameMap, name: &str, language: &str) -> &'a TopGamesLanguages {
    &game(games, name).top_games_languages.iter().find(|entry| entry.0 == language).unwrap().1
}

#[test]
fn two_reviews_of_one_game_and_language() {
    let rows = vec![row(&["G1", "EN", "first", "5"]), row(&["G1", "EN", "second", "9"])];
    let (games, languages) = accumulate(&rows, &COLUMNS).unwrap();
    assert_eq!(games.entries().len(), 1);
    assert_eq!(game(&games, "G1").total_review_count, 2);
    let tally = pair(&games, "G1", "EN");
    assert_eq!(tally.review_count, 2);
    assert_eq!(tally.top_review_count, 9);
    assert_eq!(tally.top_review, "second");
    assert_eq!(languages.entries().len(), 1);
    assert_eq!(languages.entries()[0].0, "EN");
    assert_eq!(languages.entries()[0].1.review_count, 2);
    assert_eq!(languages.entries()[0].1.top_reviews.len(), 2);
}

#[test]
fn no_rows_give_empty_statistics() {
    let (games, languages) = accumulate(&Vec::new(), &COLUMNS).unwrap();
    assert!(games.entries().is_empty());
    assert!(languages.entries().is_empty());
    assert_eq!(games.reviews(), 0);
    assert_eq!(languages.reviews(), 0);
    assert_eq!(games, GameMap::default());
    assert_eq!(languages, LanguageMap::default());
}

#[test]
fn first_review_wins_a_tie() {
    let rows = vec![
        row(&["G", "EN", "early", "4"]),
        row(&["G", "EN", "late", "4"]),
        row(&["G", "EN", "lower", "3"]),
    ];
    let (games, _) = accumulate(&rows, &COLUMNS).unwrap();
    let tally = pair(&games, "G", "EN");
    assert_eq!(tally.review_count, 3);
    assert_eq!(tally.top_review, "early");
    assert_eq!(tally.top_review_count, 4);
}

#[test]
fn review_without_votes_is_counted_but_not_kept() {
    let rows = vec![
        row(&["G", "EN", "silent", "0"]),
        row(&["G", "EN", "unreadable", "many"]),
        row(&["G", "EN", "empty", ""]),
    ];
    let (games, languages) = accumulate(&rows, &COLUMNS).unwrap();
    let tally = pair(&games, "G", "EN");
    assert_eq!(tally.review_count, 3);
    assert_eq!(tally.top_review, "");
    assert_eq!(tally.top_review_count, 0);
    assert_eq!(languages.entries()[0].1.review_count, 3);
    assert!(languages.entries()[0].1.top_reviews.is_empty());
}

#[test]
fn voted_reviews_are_kept_in_order() {
    let rows = vec![
        row(&["A", "EN", "one", "1"]),
        row(&["B", "ES", "dos", "2"]),
        row(&["B", "EN", "none", "0"]),
        row(&["A", "EN", "three", "3"]),
    ];
    let (_, languages) = accumulate(&rows, &COLUMNS).unwrap();
    let listed = languages.entries();
    assert_eq!(listed.len(), 2);
    assert_eq!(listed[0].0, "EN");
    assert_eq!(listed[0].1.review_count, 3);
    let kept: Vec<(&str, u32)> =
        listed[0].1.top_reviews.iter().map(|kept| (kept.review.as_str(), kept.votes)).collect();
    assert_eq!(kept, vec![("one", 1), ("three", 3)]);
    assert_eq!(listed[1].0, "ES");
    assert_eq!(listed[1].1.review_count, 1);
    assert_eq!(listed[1].1.top_reviews.len(), 1);
    assert_eq!(listed[1].1.top_reviews[0].review, "dos");
    assert_eq!(listed[1].1.top_reviews[0].votes, 2);
}

#[test]
fn games_and_languages_are_listed_as_first_seen() {
    let rows = vec![
        row(&["B", "ES", "t", "1"]),
        row(&["A", "EN", "t", "1"]),
        row(&["B", "EN", "t", "1"]),
        row(&["C", "ES", "t", "1"]),
        row(&["A", "FR", "t", "1"]),
    ];
    let (games, languages) = accumulate(&rows, &COLUMNS).unwrap();
    let names: Vec<&str> = games.entries().iter().map(|entry| entry.0.as_str()).collect();
    assert_eq!(names, vec!["B", "A", "C"]);
    let of_b: Vec<&str> =
        game(&games, "B").top_games_languages.iter().map(|entry| entry.0.as_str()).collect();
    assert_eq!(of_b, vec!["ES", "EN"]);
    let overall: Vec<&str> = languages.entries().iter().map(|entry| entry.0.as_str()).collect();
    assert_eq!(overall, vec!["ES", "EN", "FR"]);
}

#[test]
fn every_row_is_counted_once() {
    let rows = vec![
        row(&["A", "EN", "t", "1"]),
        row(&["B", "ES", "t", "0"]),
        row(&["A", "ES", "t", "x"]),
        row(&["C", "EN", "t", "3"]),
        row(&["A", "EN", "t", "2"]),
        row(&["B", "FR", "t", ""]),
        row(&["A", "FR", "t", "8"]),
    ];
    let (games, languages) = accumulate(&rows, &COLUMNS).unwrap();
    assert_eq!(games.reviews(), 7);
    assert_eq!(languages.reviews(), 7);
    let by_game: u32 = games.entries().iter().map(|entry| entry.1.total_review_count).sum();
    assert_eq!(by_game, 7);
    let by_language: u32 = languages.entries().iter().map(|entry| entry.1.review_count).sum();
    assert_eq!(by_language, 7);
    for entry in games.entries() {
        let of_game: u32 = entry.1.top_games_languages.iter().map(|each| each.1.review_count).sum();
        assert_eq!(of_game, entry.1.total_review_count);
    }
    assert_eq!(game(&games, "A").total_review_count, 4);
    assert_eq!(pair(&games, "A", "EN").review_count, 2);
    assert_eq!(pair(&games, "A", "EN").top_review_count, 2);
    assert_eq!(pair(&games, "A", "FR").top_review_count, 8);
}

#[test]
fn top_review_has_the_highest_votes() {
    let votes = [3u32, 9, 0, 9, 7, 1, 9, 2];
    let rows: Vec<Vec<String>> = votes
        .iter()
        .enumerate()
        .map(|(i, votes)| row(&["G", "EN", &format!("text {}", i), &votes.to_string()]))
        .collect();
    let (games, _) = accumulate(&rows, &COLUMNS).unwrap();
    let tally = pair(&games, "G", "EN");
    assert_eq!(tally.top_review_count, 9);
    assert_eq!(tally.top_review, "text 1");
    assert_eq!(tally.review_count, 8);
}

#[test]
fn columns_may_stand_anywhere() {
    let columns = Columns { game: 3, language: 0, text: 1, helpful_votes: 2 };
    let rows = vec![row(&["EN", "good", "6", "G"])];
    let (games, languages) = accumulate(&rows, &columns).unwrap();
    assert_eq!(games.entries()[0].0, "G");
    assert_eq!(pair(&games, "G", "EN").top_review, "good");
    assert_eq!(pair(&games, "G", "EN").top_review_count, 6);
    assert_eq!(languages.entries()[0].1.top_reviews[0].votes, 6);
}

#[test]
fn short_row_is_a_record_error() {
    let rows = vec![row(&["G", "EN", "fine", "1"]), row(&["G", "EN", "cut"])];
    let error = accumulate(&rows, &COLUMNS).unwrap_err();
    assert_eq!(error.type_error, ErrorType::RecordError);
    assert_eq!(error.message, "Record does not contain enough fields");
}

#[test]
fn review_is_read_from_its_columns() {
    let columns = Columns { game: 1, language: 2, text: 0, helpful_votes: 4 };
    let read = read_review(&row(&["text", "game", "lang", "other", "+15"]), &columns).unwrap();
    assert_eq!(read, review("game", "lang", "text", 15));
}

#[test]
fn review_with_a_missing_field_is_a_record_error() {
    let columns = Columns { game: 0, language: 1, text: 2, helpful_votes: 5 };
    let error = read_review(&row(&["g", "l", "t", "1", "x"]), &columns).unwrap_err();
    assert_eq!(error.type_error, ErrorType::RecordError);
    assert_eq!(error.message, "Record does not contain enough fields");
}

#[test]
fn reviews_are_recorded_one_by_one() {
    let mut games = GameMap::default();
    let mut languages = LanguageMap::default();
    for each in [review("G1", "EN", "a", 5), review("G1", "EN", "b", 9), review("G2", "EN", "c", 0)]
    {
        games.record(&each);
        languages.record(&each);
    }
    assert_eq!(games.reviews(), 3);
    assert_eq!(languages.reviews(), 3);
    assert_eq!(pair(&games, "G1", "EN").review_count, 2);
    assert_eq!(pair(&games, "G1", "EN").top_review_count, 9);
    assert_eq!(pair(&games, "G1", "EN").top_review, "b");
    assert_eq!(pair(&games, "G2", "EN").top_review, "");
    assert_eq!(languages.entries()[0].1.top_reviews.len(), 2);
}

#[test]
fn recording_gives_what_accumulating_gives() {
    let rows = vec![
        row(&["A", "EN", "x", "2"]),
        row(&["B", "EN", "y", "0"]),
        row(&["A", "ES", "z", "7"]),
    ];
    let (games, languages) = accumulate(&rows, &COLUMNS).unwrap();
    let mut recorded_games = GameMap::default();
    let mut recorded_languages = LanguageMap::default();
    for each in &rows {
        let read = read_review(each, &COLUMNS).unwrap();
        recorded_games.record(&read);
        recorded_languages.record(&read);
    }
    assert_eq!(games, recorded_games);
    assert_eq!(languages, recorded_languages);
}

#[test]
fn unknown_names_are_not_found() {
    let rows = vec![row(&["A", "EN", "x", "2"]), row(&["B", "ES", "y", "0"])];
    let (games, languages) = accumulate(&rows, &COLUMNS).unwrap();
    assert!(games.get(&"A".to_string()).is_some());
    assert!(games.get(&"C".to_string()).is_none());
    assert!(games.get(&"a".to_string()).is_none());
    assert_eq!(games.get(&"B".to_string()).unwrap().total_review_count, 1);
    assert_eq!(languages.get(&"EN".to_string()).unwrap().review_count, 1);
    assert_eq!(languages.get(&"EN".to_string()).unwrap().top_reviews.len(), 1);
    assert!(languages.get(&"ES".to_string()).unwrap().top_reviews.is_empty());
    assert!(languages.get(&"FR".to_string()).is_none());
    assert!(GameMap::default().get(&"A".to_string()).is_none());
}
