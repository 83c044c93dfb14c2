use review_stats::body::process_data::{
    accumulate, merge_game_maps, merge_lang_maps, merge_partials,
};
use review_stats::errors::{Error, ErrorType};
use review_stats::structs::structs_process_data::{Columns, GameMap, LanguageMap};

const COLUMNS: Columns = Columns { game: 0, language: 1, text: 2, helpful_votes: 3 };

fn row(fields: &[&str]) -> Vec<String> {
    fields.iter().map(|field| field.to_string()).collect()
}

fn sample() -> Vec<Vec<String>> {
    vec![
        row(&["Portal", "english", "great", "12"]),
        row(&["Portal", "spanish", "genial", "3"]),
        row(&["Doom", "english", "loud", "12"]),
        row(&["Portal", "english", "cake", "12"]),
        row(&["Doom", "german", "laut", "0"]),
        row(&["Myst", "english", "quiet", "1"]),
        row(&["Doom", "english", "fast", "40"]),
        row(&["Portal", "german", "toll", "x"]),
        row(&["Myst", "french", "calme", "2"]),
        row(&["Doom", "spanish", "rapido", "5"]),
    ]
}

fn tally(rows: &[Vec<String>]) -> (GameMap, LanguageMap) {
    accumulate(&rows.to_vec(), &COLUMNS).unwrap()
}

fn merge(a: (GameMap, LanguageMap), b: (GameMap, LanguageMap)) -> (GameMap, LanguageMap) {
    (merge_game_maps(a.0, b.0), merge_lang_maps(a.1, b.1))
}

#[test]
fn split_at_any_row_and_merged_is_the_whole() {
    let rows = sample();
    let whole = tally(&rows);
    for cut in 0..=rows.len() {
        let merged = merge(tally(&rows[..cut]), tally(&rows[cut..]));
        assert_eq!(merged, whole, "cut at {}", cut);
    }
}

#[test]
fn three_parts_merge_the_same_in_any_grouping() {
    let rows = sample();
    let whole = tally(&rows);
    for first in 0..=rows.len() {
        for second in first..=rows.len() {
            let left = merge(
                merge(tally(&rows[..first]), tally(&rows[first..second])),
                tally(&rows[second..]),
            );
            let right = merge(
                tally(&rows[..first]),
                merge(tally(&rows[first..second]), tally(&rows[second..])),
            );
            assert_eq!(left, right);
            assert_eq!(left, whole);
        }
    }
}

#[test]
fn merging_with_nothing_changes_nothing() {
    let rows = sample();
    let whole = tally(&rows);
    assert_eq!(merge(tally(&rows), (GameMap::default(), LanguageMap::default())), whole);
    assert_eq!(merge((GameMap::default(), LanguageMap::default()), tally(&rows)), whole);
}

#[test]
fn counts_add_up_when_merging() {
    let a = tally(&[row(&["G", "EN", "a", "1"]), row(&["G", "ES", "b", "2"])]);
    let b = tally(&[row(&["G", "EN", "c", "3"]), row(&["H", "EN", "d", "4"])]);
    let (games, languages) = merge(a, b);
    assert_eq!(games.reviews(), 4);
    assert_eq!(languages.reviews(), 4);
    let g = &games.entries()[0];
    assert_eq!(g.0, "G");
    assert_eq!(g.1.total_review_count, 3);
    assert_eq!(g.1.top_games_languages[0].0, "EN");
    assert_eq!(g.1.top_games_languages[0].1.review_count, 2);
    assert_eq!(g.1.top_games_languages[0].1.top_review, "c");
    assert_eq!(g.1.top_games_languages[0].1.top_review_count, 3);
    assert_eq!(g.1.top_games_languages[1].0, "ES");
    assert_eq!(g.1.top_games_languages[1].1.review_count, 1);
    assert_eq!(games.entries()[1].0, "H");
    assert_eq!(games.entries()[1].1.total_review_count, 1);
    assert_eq!(languages.entries()[0].0, "EN");
    assert_eq!(languages.entries()[0].1.review_count, 3);
    let kept: Vec<&str> =
        languages.entries()[0].1.top_reviews.iter().map(|kept| kept.review.as_str()).collect();
    assert_eq!(kept, vec!["a", "c", "d"]);
}

#[test]
fn left_operand_wins_a_tie_when_merging() {
    let a = tally(&[row(&["G", "EN", "left", "5"])]);
    let b = tally(&[row(&["G", "EN", "right", "5"])]);
    let (games, _) = merge(a, b);
    assert_eq!(games.entries()[0].1.top_games_languages[0].1.top_review, "left");
    let a = tally(&[row(&["G", "EN", "left", "5"])]);
    let b = tally(&[row(&["G", "EN", "right", "5"])]);
    let (games, _) = merge(b, a);
    assert_eq!(games.entries()[0].1.top_games_languages[0].1.top_review, "right");
}

#[test]
fn higher_votes_win_when_merging() {
    let a = tally(&[row(&["G", "EN", "low", "5"])]);
    let b = tally(&[row(&["G", "EN", "high", "6"])]);
    let (games, _) = merge(a, b);
    let kept = &games.entries()[0].1.top_games_languages[0].1;
    assert_eq!(kept.top_review, "high");
    assert_eq!(kept.top_review_count, 6);
    assert_eq!(kept.review_count, 2);
}

#[test]
fn merging_in_either_order_gives_the_same_counts() {
    let rows = sample();
    let forward = merge(tally(&rows[..4]), tally(&rows[4..]));
    let backward = merge(tally(&rows[4..]), tally(&rows[..4]));
    assert_eq!(forward.0.reviews(), backward.0.reviews());
    for entry in forward.0.entries() {
        let other = backward.0.entries().iter().find(|each| each.0 == entry.0).unwrap();
        assert_eq!(entry.1.total_review_count, other.1.total_review_count);
        for language in &entry.1.top_games_languages {
            let same =
                other.1.top_games_languages.iter().find(|each| each.0 == language.0).unwrap();
            assert_eq!(language.1.review_count, same.1.review_count);
            assert_eq!(language.1.top_review_count, same.1.top_review_count);
        }
    }
    for entry in forward.1.entries() {
        let other = backward.1.entries().iter().find(|each| each.0 == entry.0).unwrap();
        assert_eq!(entry.1.review_count, other.1.review_count);
        let mut mine: Vec<(String, u32)> =
            entry.1.top_reviews.iter().map(|kept| (kept.review.clone(), kept.votes)).collect();
        let mut theirs: Vec<(String, u32)> =
            other.1.top_reviews.iter().map(|kept| (kept.review.clone(), kept.votes)).collect();
        mine.sort();
        theirs.sort();
        assert_eq!(mine, theirs);
    }
}

#[test]
fn partial_results_merge_when_both_are_there() {
    let rows = sample();
    let merged = merge_partials(Ok(tally(&rows[..3])), Ok(tally(&rows[3..]))).unwrap();
    assert_eq!(merged, tally(&rows));
}

#[test]
fn failure_wins_over_a_partial_result() {
    let failure = Error::new(ErrorType::ColumnsError, "Column 'review' not found");
    let merged = merge_partials(Ok(tally(&sample())), Err(failure.clone())).unwrap_err();
    assert_eq!(merged, failure);
    let merged = merge_partials(Err(failure.clone()), Ok(tally(&sample()))).unwrap_err();
    assert_eq!(merged, failure);
}

#[test]
fn first_of_two_failures_wins() {
    let first = Error::new(ErrorType::RecordError, "first");
    let second = Error::new(ErrorType::ColumnsError, "second");
    let merged = merge_partials(Err(first.clone()), Err(second)).unwrap_err();
    assert_eq!(merged, first);
}
