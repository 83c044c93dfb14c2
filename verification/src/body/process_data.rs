use crate::body::csv_input::{csv_headers, csv_records, read_headers, read_records};
use crate::body::decimal::{decimal_within, parse_decimal};
use crate::body::tally::slot_for;
use crate::errors::{Error, ErrorType};
use crate::laws::lemma_split_merge;
use crate::structs::keyed::{lemma_merge_empty, lemma_merge_put_new, Keyed, Summary};
use crate::structs::structs_json::views_of;
use crate::structs::structs_process_data::{
    entries_view, game_totals, games_of, games_wf, language_totals, languages_of, languages_wf,
    lemma_entries_view_push, lemma_entries_view_update, names_of, Columns, GameMap, LanguageMap,
    LanguageStats, LanguageStatsView, Review, ReviewView, TopGames,
};
use crate::structs::totals::{
    lemma_sum_bounds, lemma_sum_push, lemma_sum_take, lemma_sum_take_bounds, lemma_sum_update,
    sum,
};
use vstd::prelude::*;

verus! {

/// Whether `name` occurs in `names` at place `i` and nowhere before it.
pub open spec fn is_first_at(names: Seq<Seq<char>>, name: Seq<char>, i: int) -> bool {
    &&& 0 <= i < names.len()
    &&& names[i] == name
    &&& forall|j: int| 0 <= j < i ==> names[j] != name
}

/// The first place at which `name` occurs in `names`.
pub open spec fn first_index(names: Seq<Seq<char>>, name: Seq<char>) -> int {
    choose|i: int| is_first_at(names, name, i)
}

/// What is wrong with a header row, if anything: fewer than four columns, or else the first
/// of the required columns that is missing.
pub open spec fn missing_column_message(headers: Seq<Seq<char>>) -> Option<Seq<char>> {
    if headers.len() < 4 {
        Some("File does not contain enough columns"@)
    } else if !headers.contains("app_name"@) {
        Some("Column 'app_name' not found"@)
    } else if !headers.contains("language"@) {
        Some("Column 'language' not found"@)
    } else if !headers.contains("review"@) {
        Some("Column 'review' not found"@)
    } else if !headers.contains("votes_helpful"@) {
        Some("Column 'votes_helpful' not found"@)
    } else {
        None
    }
}

impl Columns {
    /// The columns of a header row: for each required column, the first place that bears
    /// its name.
    pub open spec fn of_headers(headers: Seq<Seq<char>>) -> Columns {
        Columns {
            game: first_index(headers, "app_name"@) as usize,
            language: first_index(headers, "language"@) as usize,
            text: first_index(headers, "review"@) as usize,
            helpful_votes: first_index(headers, "votes_helpful"@) as usize,
        }
    }

    /// Whether a row has a field at each of the four places.
    pub open spec fn fit(self, row: Seq<Seq<char>>) -> bool {
        &&& self.game < row.len()
        &&& self.language < row.len()
        &&& self.text < row.len()
        &&& self.helpful_votes < row.len()
    }
}

/// The first place at which `name` occurs in `names`, if it occurs.
pub fn first_position(names: &Vec<String>, name: &str) -> (found: Option<usize>)
    ensures
        match found {
            Some(i) => is_first_at(views_of(names@), name@, i as int)
                && first_index(views_of(names@), name@) == i,
            None => !views_of(names@).contains(name@),
        },
{
    let wanted = String::from_str(name);
    let mut i: usize = 0;
    while i < names.len()
        invariant
            i <= names.len(),
            wanted@ == name@,
            forall|j: int| 0 <= j < i ==> views_of(names@)[j] != name@,
        decreases names.len() - i,
    {
        if names[i] == wanted {
            assert(is_first_at(views_of(names@), name@, i as int));
            return Some(i);
        }
        i += 1;
    }
    None
}

/// Finds the four required columns in a header row.
///
/// Fails with a `ColumnsError` if the row has fewer than four columns or lacks one of
/// `app_name`, `language`, `review` and `votes_helpful`; the message names the first one
/// that is missing. Names are compared exactly. Where a name occurs more than once, its
/// first column is taken.
pub fn columns_index(headers: Vec<String>) -> (resolved: Result<Columns, Error>)
    ensures
        resolved is Ok <==> missing_column_message(views_of(headers@)) is None,
        match resolved {
            Ok(columns) => {
                &&& columns == Columns::of_headers(views_of(headers@))
                &&& is_first_at(views_of(headers@), "app_name"@, columns.game as int)
                &&& is_first_at(views_of(headers@), "language"@, columns.language as int)
                &&& is_first_at(views_of(headers@), "review"@, columns.text as int)
                &&& is_first_at(views_of(headers@), "votes_helpful"@, columns.helpful_votes as int)
            },
            Err(error) => {
                &&& error.type_error == ErrorType::ColumnsError
                &&& missing_column_message(views_of(headers@)) == Some(error.message@)
            },
        },
{
    if headers.len() < 4 {
        return Err(Error::new(ErrorType::ColumnsError, "File does not contain enough columns"));
    }
    let game = match first_position(&headers, "app_name") {
        Some(i) => i,
        None => {
            return Err(Error::new(ErrorType::ColumnsError, "Column 'app_name' not found"));
        },
    };
    let language = match first_position(&headers, "language") {
        Some(i) => i,
        None => {
            return Err(Error::new(ErrorType::ColumnsError, "Column 'language' not found"));
        },
    };
    let text = match first_position(&headers, "review") {
        Some(i) => i,
        None => {
            return Err(Error::new(ErrorType::ColumnsError, "Column 'review' not found"));
        },
    };
    let helpful_votes = match first_position(&headers, "votes_helpful") {
        Some(i) => i,
        None => {
            return Err(Error::new(ErrorType::ColumnsError, "Column 'votes_helpful' not found"));
        },
    };
    Ok(Columns { game, language, text, helpful_votes })
}

/// The votes that a field states: the number it writes if it is a decimal number that fits
/// the counter, and zero for anything else.
pub open spec fn votes_of(field: Seq<char>) -> nat {
    match decimal_within(field, u32::MAX as nat) {
        Some(votes) => votes,
        None => 0,
    }
}

/// Reads the votes that a field states; a field that states none counts as zero.
pub fn parse_votes(field: &str) -> (votes: u32)
    ensures
        votes == votes_of(field@),
{
    match parse_decimal(field, u32::MAX as u64) {
        Some(votes) => votes as u32,
        None => 0,
    }
}

/// The review that a row holds at the given columns.
pub open spec fn review_of(row: Seq<Seq<char>>, columns: Columns) -> ReviewView {
    ReviewView {
        game: row[columns.game as int],
        language: row[columns.language as int],
        text: row[columns.text as int],
        votes: votes_of(row[columns.helpful_votes as int]),
    }
}

/// Reads the review that a row holds at the given columns.
///
/// Fails with a `RecordError` if the row has no field at one of the four places.
pub fn read_review(row: &Vec<String>, columns: &Columns) -> (read: Result<Review, Error>)
    ensures
        match read {
            Ok(review) => columns.fit(views_of(row@)) && review@ == review_of(
                views_of(row@),
                *columns,
            ),
            Err(error) => {
                &&& !columns.fit(views_of(row@))
                &&& error.type_error == ErrorType::RecordError
                &&& error.message@ == "Record does not contain enough fields"@
            },
        },
{
    let n = row.len();
    if columns.game >= n || columns.language >= n || columns.text >= n || columns.helpful_votes
        >= n {
        return Err(Error::new(ErrorType::RecordError, "Record does not contain enough fields"));
    }
    Ok(
        Review {
            game: row[columns.game].clone(),
            language: row[columns.language].clone(),
            text: row[columns.text].clone(),
            votes: parse_votes(row[columns.helpful_votes].as_str()),
        },
    )
}

/// The rows of a table, each as the texts of its fields.
pub open spec fn rows_view(rows: Seq<Vec<String>>) -> Seq<Seq<Seq<char>>> {
    Seq::new(rows.len(), |i: int| views_of(rows[i]@))
}

/// Whether every row has a field at each of the four places.
pub open spec fn rows_fit(rows: Seq<Seq<Seq<char>>>, columns: Columns) -> bool {
    forall|i: int| 0 <= i < rows.len() ==> columns.fit(#[trigger] rows[i])
}

/// The reviews that the rows hold at the given columns, in order.
pub open spec fn reviews_of(rows: Seq<Seq<Seq<char>>>, columns: Columns) -> Seq<ReviewView> {
    Seq::new(rows.len(), |i: int| review_of(rows[i], columns))
}

/// Builds the statistics of one table of rows: every row is read as a review and counted
/// under its game and under its language, in order.
///
/// Fails with a `RecordError` if a row has no field at one of the four places. The number of
/// rows must fit the counters.
pub fn accumulate(rows: &Vec<Vec<String>>, columns: &Columns) -> (tallied: Result<
    (GameMap, LanguageMap),
    Error,
>)
    requires
        rows.len() <= u32::MAX,
    ensures
        match tallied {
            Ok((games, languages)) => {
                let reviews = reviews_of(rows_view(rows@), *columns);
                &&& rows_fit(rows_view(rows@), *columns)
                &&& games@ == games_of(reviews)
                &&& languages@ == languages_of(reviews)
                &&& games.review_total() == rows.len()
                &&& languages.review_total() == rows.len()
            },
            Err(error) => {
                &&& !rows_fit(rows_view(rows@), *columns)
                &&& error.type_error == ErrorType::RecordError
                &&& error.message@ == "Record does not contain enough fields"@
            },
        },
{
    let mut games = GameMap::default();
    let mut languages = LanguageMap::default();
    let ghost table = rows_view(rows@);
    let ghost reviews = reviews_of(table, *columns);
    assert(reviews.take(0) =~= Seq::empty());
    let mut i: usize = 0;
    while i < rows.len()
        invariant
            i <= rows.len() <= u32::MAX,
            table == rows_view(rows@),
            reviews == reviews_of(table, *columns),
            forall|k: int| 0 <= k < i ==> columns.fit(#[trigger] table[k]),
            games@ == games_of(reviews.take(i as int)),
            languages@ == languages_of(reviews.take(i as int)),
            games.review_total() == i,
            languages.review_total() == i,
        decreases rows.len() - i,
    {
        let review = match read_review(&rows[i], columns) {
            Ok(review) => review,
            Err(error) => {
                assert(!columns.fit(table[i as int]));
                return Err(error);
            },
        };
        assert(review@ == reviews[i as int]);
        assert(reviews.take(i as int + 1).drop_last() =~= reviews.take(i as int));
        games.record(&review);
        languages.record(&review);
        i += 1;
    }
    assert(reviews.take(i as int) =~= reviews);
    Ok((games, languages))
}

/// Merges the per-game statistics of two partial results.
///
/// For a game that both know, the review counts add up, language by language, and of two
/// top reviews the one with strictly more votes stays; on a tie, the one of `a`. The games
/// of `a` keep their places and the new games of `b` follow in their own order. The number
/// of reviews of both together must fit the counters.
pub fn merge_game_maps(a: GameMap, b: GameMap) -> (merged: GameMap)
    requires
        a.review_total() + b.review_total() <= u32::MAX,
    ensures
        merged@ == a@.merge(b@),
        merged.review_total() == a.review_total() + b.review_total(),
{
    proof {
        use_type_invariant(&a);
        use_type_invariant(&b);
    }
    let mut merged = a.entries;
    let ghost mine = merged@;
    let ghost theirs = b.entries@;
    let ghost their_totals = game_totals(theirs);
    proof {
        lemma_merge_empty(entries_view(mine));
        assert(entries_view(theirs.take(0)) =~= Keyed::empty());
        assert(their_totals.take(0) =~= Seq::empty());
    }
    let mut j: usize = 0;
    while j < b.entries.len()
        invariant
            j <= b.entries.len(),
            theirs == b.entries@,
            their_totals == game_totals(theirs),
            games_wf(theirs),
            sum(game_totals(mine)) + sum(their_totals) <= u32::MAX,
            names_of(merged@).no_duplicates(),
            forall|i: int| 0 <= i < merged.len() ==> (#[trigger] merged[i]).1.wf(),
            sum(game_totals(merged@)) == sum(game_totals(mine)) + sum(
                their_totals.take(j as int),
            ),
            entries_view(merged@) == entries_view(mine).merge(
                entries_view(theirs.take(j as int)),
            ),
        decreases b.entries.len() - j,
    {
        let fresh = TopGames::default();
        let ghost before = merged@;
        let ghost totals = game_totals(merged@);
        let ghost key = theirs[j as int].0;
        let slot = slot_for(&mut merged, &b.entries[j].0, fresh);
        let ghost listed = merged@;
        proof {
            if names_of(before).contains(key@) {
            } else {
                lemma_entries_view_push(before, (key, fresh));
                lemma_sum_push(totals, 0);
                assert(game_totals(listed) =~= totals.push(0));
            }
            lemma_sum_bounds(game_totals(listed), slot as int);
            lemma_sum_take(their_totals, j as int);
            lemma_sum_take_bounds(their_totals, j as int + 1);
            assert(theirs[j as int].1.wf());
        }
        merged[slot].1.absorb(&b.entries[j].1);
        proof {
            let changed = merged@;
            assert(changed =~= listed.update(slot as int, changed[slot as int]));
            lemma_entries_view_update(listed, slot as int, changed[slot as int]);
            lemma_sum_update(
                game_totals(listed),
                slot as int,
                changed[slot as int].1.total_review_count as nat,
            );
            assert(game_totals(changed) =~= game_totals(listed).update(
                slot as int,
                changed[slot as int].1.total_review_count as nat,
            ));
            let seen = theirs.take(j as int);
            assert(theirs.take(j as int + 1) =~= seen.push(theirs[j as int]));
            assert(!names_of(seen).contains(key@)) by {
                if names_of(seen).contains(key@) {
                    let i = choose|i: int| 0 <= i < seen.len() && names_of(seen)[i] == key@;
                    assert(names_of(theirs)[i] == names_of(theirs)[j as int]);
                }
            }
            assert(names_of(seen).no_duplicates()) by {
                assert(names_of(seen) =~= names_of(theirs).take(j as int));
            }
            lemma_entries_view_push(seen, theirs[j as int]);
            lemma_merge_put_new(entries_view(mine), entries_view(seen), key@, theirs[j as int].1@);
            assert(entries_view(changed) =~= entries_view(mine).merge(entries_view(seen)).absorb(
                key@,
                theirs[j as int].1@,
            ));
        }
        j += 1;
    }
    proof {
        assert(theirs.take(j as int) =~= theirs);
        assert(their_totals.take(j as int) =~= their_totals);
    }
    GameMap { entries: merged }
}

/// Merges the per-language statistics of two partial results.
///
/// For a language that both know, the review counts add up and the voted reviews of `b`
/// follow those of `a`. The languages of `a` keep their places and the new languages of `b`
/// follow in their own order. The number of reviews of both together must fit the counters.
pub fn merge_lang_maps(a: LanguageMap, b: LanguageMap) -> (merged: LanguageMap)
    requires
        a.review_total() + b.review_total() <= u32::MAX,
    ensures
        merged@ == a@.merge(b@),
        merged.review_total() == a.review_total() + b.review_total(),
{
    proof {
        use_type_invariant(&a);
        use_type_invariant(&b);
    }
    let mut merged = a.entries;
    let ghost mine = merged@;
    let ghost theirs = b.entries@;
    let ghost their_totals = language_totals(theirs);
    proof {
        lemma_merge_empty(entries_view(mine));
        assert(entries_view(theirs.take(0)) =~= Keyed::empty());
        assert(their_totals.take(0) =~= Seq::empty());
    }
    let mut j: usize = 0;
    while j < b.entries.len()
        invariant
            j <= b.entries.len(),
            theirs == b.entries@,
            their_totals == language_totals(theirs),
            languages_wf(theirs),
            sum(language_totals(mine)) + sum(their_totals) <= u32::MAX,
            names_of(merged@).no_duplicates(),
            forall|i: int| 0 <= i < merged.len() ==> (#[trigger] merged[i]).1@.settled(),
            sum(language_totals(merged@)) == sum(language_totals(mine)) + sum(
                their_totals.take(j as int),
            ),
            entries_view(merged@) == entries_view(mine).merge(
                entries_view(theirs.take(j as int)),
            ),
        decreases b.entries.len() - j,
    {
        let fresh = LanguageStats::default();
        let ghost before = merged@;
        let ghost totals = language_totals(merged@);
        let ghost key = theirs[j as int].0;
        let slot = slot_for(&mut merged, &b.entries[j].0, fresh);
        let ghost listed = merged@;
        proof {
            if names_of(before).contains(key@) {
            } else {
                lemma_entries_view_push(before, (key, fresh));
                lemma_sum_push(totals, 0);
                assert(language_totals(listed) =~= totals.push(0));
            }
            lemma_sum_bounds(language_totals(listed), slot as int);
            lemma_sum_take(their_totals, j as int);
            lemma_sum_take_bounds(their_totals, j as int + 1);
            assert(theirs[j as int].1@.settled());
            LanguageStatsView::lemma_settled(listed[slot as int].1@, theirs[j as int].1@);
        }
        merged[slot].1.absorb(&b.entries[j].1);
        proof {
            let changed = merged@;
            assert(changed =~= listed.update(slot as int, changed[slot as int]));
            lemma_entries_view_update(listed, slot as int, changed[slot as int]);
            lemma_sum_update(
                language_totals(listed),
                slot as int,
                changed[slot as int].1.review_count as nat,
            );
            assert(language_totals(changed) =~= language_totals(listed).update(
                slot as int,
                changed[slot as int].1.review_count as nat,
            ));
            let seen = theirs.take(j as int);
            assert(theirs.take(j as int + 1) =~= seen.push(theirs[j as int]));
            assert(!names_of(seen).contains(key@)) by {
                if names_of(seen).contains(key@) {
                    let i = choose|i: int| 0 <= i < seen.len() && names_of(seen)[i] == key@;
                    assert(names_of(theirs)[i] == names_of(theirs)[j as int]);
                }
            }
            assert(names_of(seen).no_duplicates()) by {
                assert(names_of(seen) =~= names_of(theirs).take(j as int));
            }
            lemma_entries_view_push(seen, theirs[j as int]);
            lemma_merge_put_new(entries_view(mine), entries_view(seen), key@, theirs[j as int].1@);
            assert(entries_view(changed) =~= entries_view(mine).merge(entries_view(seen)).absorb(
                key@,
                theirs[j as int].1@,
            ));
        }
        j += 1;
    }
    proof {
        assert(theirs.take(j as int) =~= theirs);
        assert(their_totals.take(j as int) =~= their_totals);
    }
    LanguageMap { entries: merged }
}

/// Whether `partial` holds exactly the statistics of `reviews`.
pub open spec fn tallies(partial: (GameMap, LanguageMap), reviews: Seq<ReviewView>) -> bool {
    &&& partial.0@ == games_of(reviews)
    &&& partial.1@ == languages_of(reviews)
    &&& partial.0.review_total() == reviews.len()
    &&& partial.1.review_total() == reviews.len()
}

/// A failure as far as it can be told in advance: its kind, and its message unless that is
/// left to the reader of the file.
pub struct Failure {
    pub kind: ErrorType,
    pub message: Option<Seq<char>>,
}

impl Failure {
    /// Whether `error` is this failure.
    pub open spec fn describes(self, error: Error) -> bool {
        &&& error.type_error == self.kind
        &&& match self.message {
            Some(message) => error.message@ == message,
            None => true,
        }
    }

    /// A header row or a row could not be read.
    pub open spec fn unreadable() -> Failure {
        Failure { kind: ErrorType::RecordError, message: None }
    }

    /// A required column is missing.
    pub open spec fn missing_column(message: Seq<char>) -> Failure {
        Failure { kind: ErrorType::ColumnsError, message: Some(message) }
    }

    /// There are more reviews than the counters can count.
    pub open spec fn too_many() -> Failure {
        Failure { kind: ErrorType::RecordError, message: Some("Too many reviews"@) }
    }

    /// A row has no field at one of the four places.
    pub open spec fn short_row() -> Failure {
        Failure {
            kind: ErrorType::RecordError,
            message: Some("Record does not contain enough fields"@),
        }
    }
}

/// The reviews of one file, or the failure that reading it ends in.
///
/// The header row is read first, then the four columns are looked up in it, and only then
/// the rows are read. A header row or a row that cannot be read is a `RecordError`, a missing
/// column a `ColumnsError`, and so are, as `RecordError`, more rows than the counters can
/// count and a row without a field at one of the four places.
pub open spec fn file_reviews(data: Seq<u8>) -> Result<Seq<ReviewView>, Failure> {
    match csv_headers(data) {
        None => Err(Failure::unreadable()),
        Some(headers) => match missing_column_message(headers) {
            Some(message) => Err(Failure::missing_column(message)),
            None => match csv_records(data) {
                None => Err(Failure::unreadable()),
                Some(rows) => if rows.len() > u32::MAX {
                    Err(Failure::too_many())
                } else if !rows_fit(rows, Columns::of_headers(headers)) {
                    Err(Failure::short_row())
                } else {
                    Ok(reviews_of(rows, Columns::of_headers(headers)))
                },
            },
        },
    }
}

/// Builds the statistics of one file, given as its bytes.
///
/// Succeeds exactly where `file_reviews` gives reviews, and then returns their statistics.
/// Otherwise the error is the failure that `file_reviews` gives.
pub fn process_file(data: &[u8]) -> (partial: Result<(GameMap, LanguageMap), Error>)
    ensures
        match file_reviews(data@) {
            Ok(reviews) => partial matches Ok(built) && tallies(built, reviews),
            Err(failure) => partial matches Err(error) && failure.describes(error),
        },
{
    let headers = match read_headers(data) {
        Ok(headers) => headers,
        Err(message) => {
            return Err(Error { type_error: ErrorType::RecordError, message });
        },
    };
    let columns = columns_index(headers)?;
    let rows = match read_records(data) {
        Ok(rows) => rows,
        Err(message) => {
            return Err(Error { type_error: ErrorType::RecordError, message });
        },
    };
    if rows.len() > u32::MAX as usize {
        return Err(Error::new(ErrorType::RecordError, "Too many reviews"));
    }
    accumulate(&rows, &columns)
}

/// Merges two partial results, each of which may be a failure.
///
/// A failure wins over a result, and of two failures the one of `a`. Two results are merged
/// by `merge_game_maps` and `merge_lang_maps`, unless the reviews of both together are more
/// than the counters can count: that is a `RecordError`.
pub fn merge_partials(
    a: Result<(GameMap, LanguageMap), Error>,
    b: Result<(GameMap, LanguageMap), Error>,
) -> (merged: Result<(GameMap, LanguageMap), Error>)
    ensures
        match (a, b) {
            (Err(error), _) => merged == Err::<(GameMap, LanguageMap), Error>(error),
            (Ok(_), Err(error)) => merged == Err::<(GameMap, LanguageMap), Error>(error),
            (Ok(x), Ok(y)) => if x.0.review_total() + y.0.review_total() <= u32::MAX
                && x.1.review_total() + y.1.review_total() <= u32::MAX {
                &&& merged matches Ok(both)
                &&& both.0@ == x.0@.merge(y.0@)
                &&& both.1@ == x.1@.merge(y.1@)
                &&& both.0.review_total() == x.0.review_total() + y.0.review_total()
                &&& both.1.review_total() == x.1.review_total() + y.1.review_total()
            } else {
                &&& merged matches Err(error)
                &&& error.type_error == ErrorType::RecordError
                &&& error.message@ == "Too many reviews"@
            },
        },
{
    match (a, b) {
        (Err(error), _) => Err(error),
        (Ok(_), Err(error)) => Err(error),
        (Ok(x), Ok(y)) => {
            let fits = x.0.reviews().checked_add(y.0.reviews()).is_some()
                && x.1.reviews().checked_add(y.1.reviews()).is_some();
            if fits {
                Ok((merge_game_maps(x.0, y.0), merge_lang_maps(x.1, y.1)))
            } else {
                Err(Error::new(ErrorType::RecordError, "Too many reviews"))
            }
        },
    }
}

/// The contents of the files, each as its bytes.
pub open spec fn files_view(files: Seq<Vec<u8>>) -> Seq<Seq<u8>> {
    Seq::new(files.len(), |i: int| files[i]@)
}

/// The reviews of all the files, in the order of the files, or the failure that gathering
/// them ends in: that of the first file that fails, or a `RecordError` as soon as there are
/// more reviews than the counters can count.
pub open spec fn gathered_reviews(files: Seq<Seq<u8>>) -> Result<Seq<ReviewView>, Failure>
    decreases files.len(),
{
    if files.len() == 0 {
        Ok(Seq::empty())
    } else {
        match gathered_reviews(files.drop_last()) {
            Err(failure) => Err(failure),
            Ok(reviews) => match file_reviews(files.last()) {
                Err(failure) => Err(failure),
                Ok(more) => if reviews.len() + more.len() > u32::MAX {
                    Err(Failure::too_many())
                } else {
                    Ok(reviews + more)
                },
            },
        }
    }
}

/// Builds the statistics of all the files: those of each file, merged in the order of the
/// files.
///
/// The result is that of counting the reviews of all the files as one sequence. The first
/// failure ends the run.
pub fn gather_data(files: Vec<Vec<u8>>) -> (gathered: Result<(GameMap, LanguageMap), Error>)
    ensures
        match gathered_reviews(files_view(files@)) {
            Ok(reviews) => gathered matches Ok(built) && tallies(built, reviews),
            Err(failure) => gathered matches Err(error) && failure.describes(error),
        },
{
    let mut built = (GameMap::default(), LanguageMap::default());
    let ghost contents = files_view(files@);
    let ghost mut reviews = Seq::<ReviewView>::empty();
    assert(contents.take(0) =~= Seq::empty());
    let mut i: usize = 0;
    while i < files.len()
        invariant
            i <= files.len(),
            contents == files_view(files@),
            gathered_reviews(contents.take(i as int)) == Ok::<Seq<ReviewView>, Failure>(reviews),
            tallies(built, reviews),
        decreases files.len() - i,
    {
        let partial = process_file(files[i].as_slice());
        proof {
            assert(contents.take(i as int + 1).drop_last() =~= contents.take(i as int));
            assert(contents.take(i as int + 1).last() == files[i as int]@);
            match file_reviews(files[i as int]@) {
                Ok(more) => {
                    lemma_split_merge(reviews, more);
                    if reviews.len() + more.len() <= u32::MAX {
                        reviews = reviews + more;
                    }
                },
                Err(_) => {},
            }
        }
        match merge_partials(Ok(built), partial) {
            Ok(both) => {
                built = both;
            },
            Err(error) => {
                proof {
                    lemma_gathered_failure(contents, i as int + 1);
                }
                return Err(error);
            },
        }
        i += 1;
    }
    assert(contents.take(i as int) =~= contents);
    Ok(built)
}

/// Once gathering has failed on the first files, it fails in the same way on all of them.
pub proof fn lemma_gathered_failure(files: Seq<Seq<u8>>, n: int)
    requires
        0 <= n <= files.len(),
        gathered_reviews(files.take(n)) is Err,
    ensures
        gathered_reviews(files) == gathered_reviews(files.take(n)),
    decreases files.len() - n,
{
    if n < files.len() {
        assert(files.take(n + 1).drop_last() =~= files.take(n));
        lemma_gathered_failure(files, n + 1);
    } else {
        assert(files.take(n) =~= files);
    }
}

} // verus!
