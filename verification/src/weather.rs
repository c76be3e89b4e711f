//! Weather records.
//!
//! A weather file holds one record on each line, with fields that a separator
//! keeps apart. Of the lines from the first that holds the start date up to
//! the next that holds the end date, the wanted fields are kept.

use crate::text::{chars_of, contains, contains_in, find, find_in, push_all, slice_of, string_of};
use vstd::prelude::*;

verus! {

/// The single characters of a text, each as a text of its own.
pub open spec fn singles(s: Seq<char>) -> Seq<Seq<char>> {
    Seq::new(s.len(), |i: int| seq![s[i]])
}

/// The pieces of `s` between the occurrences of `separator`, from left to
/// right. An empty separator stands between all characters and at both ends.
pub open spec fn split(s: Seq<char>, separator: Seq<char>) -> Seq<Seq<char>>
    decreases s.len(),
{
    if separator.len() == 0 {
        seq![Seq::<char>::empty()] + singles(s) + seq![Seq::<char>::empty()]
    } else {
        match find(s, separator) {
            Some(i) => if 0 <= i && i + separator.len() <= s.len() {
                seq![s.take(i)] + split(s.skip(i + separator.len()), separator)
            } else {
                seq![s]
            },
            None => seq![s],
        }
    }
}

/// The fields of the first `n` wanted columns, each with the separator
/// behind it. There is no such text where a column is missing.
pub open spec fn picked(fields: Seq<Seq<char>>, column: Seq<u32>, separator: Seq<char>, n: int) -> Option<
    Seq<char>,
>
    decreases n,
{
    if n <= 0 {
        Some(Seq::empty())
    } else {
        match picked(fields, column, separator, n - 1) {
            Some(before) => if column[n - 1] < fields.len() {
                Some(before + fields[column[n - 1] as int] + separator)
            } else {
                None
            },
            None => None,
        }
    }
}

/// Whether the line `n` is kept: it holds the start date, or a line before it
/// does and no line between the two holds the end date.
pub open spec fn kept(lines: Seq<Seq<char>>, start: Seq<char>, end: Seq<char>, n: int) -> bool
    decreases n,
{
    if n < 0 {
        false
    } else {
        contains(lines[n], start) || (n > 0 && kept(lines, start, end, n - 1) && !contains(
            lines[n - 1],
            end,
        ))
    }
}

/// The records of the first `n` lines. There are none where a kept line
/// lacks a wanted column.
pub open spec fn records(
    lines: Seq<Seq<char>>,
    start: Seq<char>,
    end: Seq<char>,
    column: Seq<u32>,
    separator: Seq<char>,
    n: int,
) -> Option<Seq<Seq<char>>>
    decreases n,
{
    if n <= 0 {
        Some(Seq::empty())
    } else {
        match records(lines, start, end, column, separator, n - 1) {
            Some(before) => if kept(lines, start, end, n - 1) {
                match picked(
                    split(lines[n - 1], separator),
                    column,
                    separator,
                    column.len() as int,
                ) {
                    Some(record) => Some(before.push(record)),
                    None => None,
                }
            } else {
                Some(before)
            },
            None => None,
        }
    }
}

/// The records of a weather file.
pub open spec fn weather_records(
    data: Seq<char>,
    start: Seq<char>,
    end: Seq<char>,
    column: Seq<u32>,
    separator: Seq<char>,
) -> Option<Seq<Seq<char>>> {
    let lines = split(data, "\n"@);
    records(lines, start, end, column, separator, lines.len() as int)
}

/// The values of a list of texts.
pub open spec fn char_rows(rows: Seq<Vec<char>>) -> Seq<Seq<char>> {
    rows.map_values(|r: Vec<char>| r@)
}

/// The values of a list of strings.
pub open spec fn string_rows(rows: Seq<String>) -> Seq<Seq<char>> {
    rows.map_values(|r: String| r@)
}

/// The pieces of `s` between the occurrences of `separator`.
pub fn split_chars(s: &Vec<char>, separator: &Vec<char>) -> (pieces: Vec<Vec<char>>)
    ensures
        char_rows(pieces@) == split(s@, separator@),
{
    let mut pieces: Vec<Vec<char>> = Vec::new();
    if separator.len() == 0 {
        pieces.push(Vec::new());
        let mut i: usize = 0;
        while i < s.len()
            invariant
                i <= s.len(),
                pieces.len() == i + 1,
                pieces[0]@ == Seq::<char>::empty(),
                forall|k: int| 0 <= k < i ==> (#[trigger] pieces[k + 1])@ == seq![s@[k]],
            decreases s.len() - i,
        {
            let mut one: Vec<char> = Vec::new();
            one.push(s[i]);
            pieces.push(one);
            i += 1;
        }
        pieces.push(Vec::new());
        assert forall|k: int| 0 <= k < pieces.len() implies char_rows(pieces@)[k] == split(
            s@,
            separator@,
        )[k] by {
            if 0 < k <= s.len() {
                assert(pieces[(k - 1) + 1]@ == seq![s@[k - 1]]);
            }
        }
        assert(char_rows(pieces@) =~= split(s@, separator@));
        return pieces;
    }
    let mut from: usize = 0;
    assert(s@.skip(0) =~= s@);
    assert(char_rows(pieces@) + split(s@.skip(0), separator@) =~= split(s@, separator@));
    loop
        invariant
            from <= s.len(),
            separator.len() > 0,
            char_rows(pieces@) + split(s@.skip(from as int), separator@) == split(s@, separator@),
        decreases s.len() - from,
    {
        let rest = slice_of(s, from, s.len());
        assert(rest@ == s@.skip(from as int));
        let ghost held = char_rows(pieces@);
        match find_in(&rest, separator) {
            Some(i) => {
                let piece = slice_of(&rest, 0, i);
                assert(piece@ == rest@.take(i as int));
                pieces.push(piece);
                assert(char_rows(pieces@) =~= held.push(piece@));
                assert(rest@.skip(i + separator.len()) =~= s@.skip(from + i + separator.len()));
                from = from + i + separator.len();
                assert(held.push(piece@) + split(s@.skip(from as int), separator@) =~= held
                    + split(rest@, separator@));
            },
            None => {
                pieces.push(rest);
                assert(char_rows(pieces@) =~= held + split(rest@, separator@));
                return pieces;
            },
        }
    }
}

/// The fields of the wanted columns, each with the separator behind it.
pub fn pick_columns(fields: &Vec<Vec<char>>, column: &Vec<u32>, separator: &Vec<char>) -> (r:
    Option<Vec<char>>)
    ensures
        match r {
            Some(record) => picked(
                char_rows(fields@),
                column@,
                separator@,
                column.len() as int,
            ) == Some(record@),
            None => picked(char_rows(fields@), column@, separator@, column.len() as int) is None,
        },
{
    let mut record: Vec<char> = Vec::new();
    let mut j: usize = 0;
    while j < column.len()
        invariant
            j <= column.len(),
            picked(char_rows(fields@), column@, separator@, j as int) == Some(record@),
        decreases column.len() - j,
    {
        let c = column[j] as usize;
        if c >= fields.len() {
            proof {
                lemma_picked_fails(
                    char_rows(fields@),
                    column@,
                    separator@,
                    j as int + 1,
                    column.len() as int,
                );
            }
            return None;
        }
        assert(char_rows(fields@)[c as int] == fields[c as int]@);
        push_all(&mut record, &fields[c]);
        push_all(&mut record, separator);
        j += 1;
    }
    Some(record)
}

/// Once a column is missing, it stays missing.
proof fn lemma_picked_fails(
    fields: Seq<Seq<char>>,
    column: Seq<u32>,
    separator: Seq<char>,
    n: int,
    m: int,
)
    requires
        n <= m,
        picked(fields, column, separator, n) is None,
    ensures
        picked(fields, column, separator, m) is None,
    decreases m - n,
{
    if n < m {
        lemma_picked_fails(fields, column, separator, n, m - 1);
    }
}

/// Once a line lacks a column, there are no records.
proof fn lemma_records_fail(
    lines: Seq<Seq<char>>,
    start: Seq<char>,
    end: Seq<char>,
    column: Seq<u32>,
    separator: Seq<char>,
    n: int,
    m: int,
)
    requires
        n <= m,
        records(lines, start, end, column, separator, n) is None,
    ensures
        records(lines, start, end, column, separator, m) is None,
    decreases m - n,
{
    if n < m {
        lemma_records_fail(lines, start, end, column, separator, n, m - 1);
    }
}

/// The records of a weather file: of every line from the first that holds
/// `start_date` up to the next that holds `end_date`, and so on for every
/// later such stretch, the fields of the wanted columns. There are no records
/// where one of these lines lacks a wanted column.
pub fn extract_weather_data(
    data: &str,
    start_date: &str,
    end_date: &str,
    column: &Vec<u32>,
    separation_character: &str,
) -> (r: Option<Vec<String>>)
    ensures
        match r {
            Some(rows) => weather_records(
                data@,
                start_date@,
                end_date@,
                column@,
                separation_character@,
            ) == Some(string_rows(rows@)),
            None => weather_records(
                data@,
                start_date@,
                end_date@,
                column@,
                separation_character@,
            ) is None,
        },
{
    let text = chars_of(data);
    let newline = chars_of("\n");
    let start = chars_of(start_date);
    let end = chars_of(end_date);
    let separator = chars_of(separation_character);
    let lines = split_chars(&text, &newline);
    let ghost all = char_rows(lines@);
    let mut rows: Vec<String> = Vec::new();
    let mut add = false;
    let mut i: usize = 0;
    assert(string_rows(rows@) =~= Seq::<Seq<char>>::empty());
    while i < lines.len()
        invariant
            i <= lines.len(),
            all == char_rows(lines@),
            all == split(data@, "\n"@),
            start@ == start_date@,
            end@ == end_date@,
            separator@ == separation_character@,
            records(all, start@, end@, column@, separator@, i as int) == Some(string_rows(rows@)),
            add == (i > 0 && kept(all, start@, end@, i - 1) && !contains(all[i - 1], end@)),
        decreases lines.len() - i,
    {
        assert(all[i as int] == lines[i as int]@);
        if contains_in(&lines[i], &start) {
            add = true;
        }
        assert(add == kept(all, start@, end@, i as int));
        if add {
            let fields = split_chars(&lines[i], &separator);
            match pick_columns(&fields, column, &separator) {
                Some(record) => {
                    let ghost held = string_rows(rows@);
                    let row = string_of(&record);
                    rows.push(row);
                    assert(string_rows(rows@) =~= held.push(record@));
                },
                None => {
                    proof {
                        assert(records(all, start@, end@, column@, separator@, i as int + 1)
                            is None);
                        lemma_records_fail(
                            all,
                            start@,
                            end@,
                            column@,
                            separator@,
                            i as int + 1,
                            lines.len() as int,
                        );
                    }
                    return None;
                },
            }
        }
        if contains_in(&lines[i], &end) {
            add = false;
        }
        i += 1;
    }
    Some(rows)
}

} // verus!
