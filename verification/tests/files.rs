use review_stats::body::filter_data::{filter_top_games, filter_top_languages};
use review_stats::body::process_data::{gather_data, process_file};
use review_stats::errors::ErrorType;
use review_stats::file::file_json::{output_json, PADRON};

const HEADER: &str = "app_name,language,review,votes_helpful\n";

fn file(rows: &str) -> Vec<u8> {
    format!("{}{}", HEADER, rows).into_bytes()
}

#[test]
fn file_with_two_reviews() {
    let (games, languages) = process_file(&file("G1,EN,first,5\nG1,EN,second,9\n")).unwrap();
    assert_eq!(games.entries().len(), 1);
    assert_eq!(games.entries()[0].0, "G1");
    assert_eq!(games.entries()[0].1.total_review_count, 2);
    let tally = &games.entries()[0].1.top_games_languages[0];
    assert_eq!(tally.0, "EN");
    assert_eq!(tally.1.review_count, 2);
    assert_eq!(tally.1.top_review, "second");
    assert_eq!(tally.1.top_review_count, 9);
    assert_eq!(languages.entries()[0].1.review_count, 2);
    assert_eq!(languages.reviews(), 2);
}

#[test]
fn header_row_is_not_a_review() {
    let (games, languages) = process_file(HEADER.as_bytes()).unwrap();
    assert!(games.entries().is_empty());
    assert!(languages.entries().is_empty());
}

#[test]
fn columns_are_found_by_name() {
    let data = b"id,votes_helpful,review,extra,app_name,language\n1,7,nice,x,Game,latin\n";
    let (games, languages) = process_file(data).unwrap();
    assert_eq!(games.entries()[0].0, "Game");
    assert_eq!(games.entries()[0].1.top_games_languages[0].0, "latin");
    assert_eq!(games.entries()[0].1.top_games_languages[0].1.top_review, "nice");
    assert_eq!(games.entries()[0].1.top_games_languages[0].1.top_review_count, 7);
    assert_eq!(languages.entries()[0].1.top_reviews[0].review, "nice");
}

#[test]
fn quoted_fields_hold_commas_quotes_and_line_breaks() {
    let data = file("\"Half, Life\",EN,\"good, \"\"really\"\"\ngood\",3\n");
    let (games, languages) = process_file(&data).unwrap();
    assert_eq!(games.entries()[0].0, "Half, Life");
    assert_eq!(languages.entries()[0].1.top_reviews[0].review, "good, \"really\"\ngood");
    assert_eq!(languages.entries()[0].1.top_reviews[0].votes, 3);
}

#[test]
fn unreadable_votes_in_a_file_count_as_zero() {
    let (games, languages) = process_file(&file("G,EN,a,\nG,EN,b,many\nG,EN,c,1.5\n")).unwrap();
    assert_eq!(games.entries()[0].1.total_review_count, 3);
    assert_eq!(games.entries()[0].1.top_games_languages[0].1.top_review_count, 0);
    assert_eq!(games.entries()[0].1.top_games_languages[0].1.top_review, "");
    assert!(languages.entries()[0].1.top_reviews.is_empty());
}

#[test]
fn file_without_votes_column_is_a_columns_error() {
    let error = process_file(b"app_name,language,review,votes\nG,EN,a,1\n").unwrap_err();
    assert_eq!(error.type_error, ErrorType::ColumnsError);
    assert_eq!(error.message, "Column 'votes_helpful' not found");
    assert_eq!(error.to_text(), "[Columns Error]: Column 'votes_helpful' not found");
}

#[test]
fn file_with_too_few_columns_is_a_columns_error() {
    let error = process_file(b"app_name,language,review\nG,EN,a\n").unwrap_err();
    assert_eq!(error.type_error, ErrorType::ColumnsError);
    assert_eq!(error.message, "File does not contain enough columns");
}

#[test]
fn empty_file_is_a_columns_error() {
    let error = process_file(b"").unwrap_err();
    assert_eq!(error.type_error, ErrorType::ColumnsError);
    assert_eq!(error.message, "File does not contain enough columns");
}

#[test]
fn missing_column_is_reported_before_any_row_is_read() {
    let error = process_file(b"app_name,language,text,votes_helpful\nG,EN\n").unwrap_err();
    assert_eq!(error.type_error, ErrorType::ColumnsError);
    assert_eq!(error.message, "Column 'review' not found");
}

#[test]
fn row_with_another_number_of_fields_is_a_record_error() {
    let error = process_file(&file("G,EN,a,1\nG,EN,b\n")).unwrap_err();
    assert_eq!(error.type_error, ErrorType::RecordError);
    assert!(!error.message.is_empty());
    let error = process_file(&file("G,EN,a,1,extra\n")).unwrap_err();
    assert_eq!(error.type_error, ErrorType::RecordError);
}

#[test]
fn row_that_is_not_text_is_a_record_error() {
    let mut data = file("G,EN,");
    data.extend_from_slice(&[0xff, 0xfe]);
    data.extend_from_slice(b",1\n");
    let error = process_file(&data).unwrap_err();
    assert_eq!(error.type_error, ErrorType::RecordError);
}

#[test]
fn header_that_is_not_text_is_a_record_error() {
    let mut data = vec![0xff, 0xfe];
    data.extend_from_slice(b",language,review,votes_helpful\nG,EN,a,1\n");
    let error = process_file(&data).unwrap_err();
    assert_eq!(error.type_error, ErrorType::RecordError);
}

#[test]
fn files_are_gathered_in_order() {
    let first = file("A,EN,a1,1\nB,ES,b1,0\n");
    let second = file("B,EN,b2,4\nA,EN,a2,1\n");
    let (games, languages) = gather_data(vec![first, second]).unwrap();
    let names: Vec<&str> = games.entries().iter().map(|entry| entry.0.as_str()).collect();
    assert_eq!(names, vec!["A", "B"]);
    assert_eq!(games.entries()[0].1.total_review_count, 2);
    assert_eq!(games.entries()[0].1.top_games_languages[0].1.top_review, "a1");
    assert_eq!(games.reviews(), 4);
    assert_eq!(languages.reviews(), 4);
    let english = &languages.entries()[0];
    assert_eq!(english.0, "EN");
    let kept: Vec<&str> = english.1.top_reviews.iter().map(|kept| kept.review.as_str()).collect();
    assert_eq!(kept, vec!["a1", "b2", "a2"]);
}

#[test]
fn no_files_give_empty_statistics() {
    let (games, languages) = gather_data(Vec::new()).unwrap();
    assert!(games.entries().is_empty());
    assert!(languages.entries().is_empty());
}

#[test]
fn file_split_in_two_gives_what_the_whole_gives() {
    let rows = [
        "Portal,english,great,12",
        "Portal,spanish,genial,3",
        "Doom,english,loud,12",
        "Portal,english,cake,12",
        "Doom,german,laut,0",
        "Myst,english,quiet,1",
        "Doom,english,\"fast, very\",40",
        "Quake,german,toll,",
    ];
    let join =
        |rows: &[&str]| file(&rows.iter().map(|row| format!("{}\n", row)).collect::<String>());
    let whole = gather_data(vec![join(&rows)]).unwrap();
    let whole_report = output_json(
        filter_top_games(whole.0).unwrap(),
        filter_top_languages(whole.1).unwrap(),
    );
    for cut in 0..=rows.len() {
        let parts = gather_data(vec![join(&rows[..cut]), join(&rows[cut..])]).unwrap();
        let report = output_json(
            filter_top_games(parts.0).unwrap(),
            filter_top_languages(parts.1).unwrap(),
        );
        assert_eq!(report, whole_report, "cut at {}", cut);
    }
    assert_eq!(whole_report.top_games[0].game, "Portal");
    assert_eq!(whole_report.top_games[0].review_count, 3);
    assert_eq!(whole_report.top_games[1].game, "Doom");
    assert_eq!(whole_report.top_games[1].review_count, 3);
    assert_eq!(whole_report.top_languages[0].language, "english");
    assert_eq!(whole_report.top_languages[0].review_count, 5);
    assert_eq!(whole_report.top_languages[0].top_reviews[0].review, "fast, very");
}

#[test]
fn first_failing_file_ends_the_run() {
    let good = file("A,EN,a,1\n");
    let no_column = b"app_name,language,review,votes\nA,EN,a,1\n".to_vec();
    let bad_row = file("A,EN\n");
    let error = gather_data(vec![good.clone(), no_column.clone(), bad_row.clone()]).unwrap_err();
    assert_eq!(error.type_error, ErrorType::ColumnsError);
    assert_eq!(error.message, "Column 'votes_helpful' not found");
    let error = gather_data(vec![bad_row, good, no_column]).unwrap_err();
    assert_eq!(error.type_error, ErrorType::RecordError);
}

#[test]
fn report_carries_the_identifying_number() {
    let (games, languages) = process_file(&file("G1,EN,first,5\nG2,ES,segundo,9\n")).unwrap();
    let report = output_json(
        filter_top_games(games).unwrap(),
        filter_top_languages(languages).unwrap(),
    );
    assert_eq!(PADRON, 85927);
    assert_eq!(report.padron, 85927);
    assert_eq!(report.top_games.len(), 2);
    assert_eq!(report.top_games[0].game, "G1");
    assert_eq!(report.top_games[0].languages[0].top_review, "first");
    assert_eq!(report.top_languages.len(), 2);
    assert_eq!(report.top_languages[1].language, "ES");
    assert_eq!(report.top_languages[1].top_reviews[0].votes, 9);
}

#[test]
fn empty_report() {
    let report = output_json(Vec::new(), Vec::new());
    assert_eq!(report.padron, 85927);
    assert!(report.top_games.is_empty());
    assert!(report.top_languages.is_empty());
}
