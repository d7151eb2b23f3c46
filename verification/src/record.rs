use vstd::prelude::*;

use crate::collect::{
    date_display, date_input_valid, days_in_month, four_digits, is_digit, mood_input_valid,
    time_display, time_input_valid, two_digits,
};

verus! {

/// One mood observation, all four fields in their display form.
pub struct MoodEntry {
    pub date: String,
    pub time: String,
    pub mood: String,
    pub description: String,
}

/// A date in its hyphenated display form: `YYYY-MM-DD`, naming a real
/// calendar day.
pub open spec fn date_field_valid(s: Seq<char>) -> bool {
    &&& s.len() == 10
    &&& forall|i: int| (0 <= i < 4 || i == 5 || i == 6 || i == 8 || i == 9) ==> is_digit(s[i])
    &&& s[4] == '-'
    &&& s[7] == '-'
    &&& 1 <= two_digits(s, 5) <= 12
    &&& 1 <= two_digits(s, 8) <= days_in_month(four_digits(s, 0), two_digits(s, 5))
}

/// A time in its display form: `HH:MM` on the 24-hour clock.
pub open spec fn time_field_valid(s: Seq<char>) -> bool {
    &&& s.len() == 5
    &&& is_digit(s[0]) && is_digit(s[1]) && is_digit(s[3]) && is_digit(s[4])
    &&& s[2] == ':'
    &&& two_digits(s, 0) <= 23
    &&& two_digits(s, 3) <= 59
}

/// Free text that fits on one line of the log.
pub open spec fn line_text(s: Seq<char>) -> bool {
    forall|i: int| 0 <= i < s.len() ==> s[i] != '\n' && s[i] != '\r'
}

/// Every row ever appended satisfies this: date, time and mood in their
/// display forms, and a description that cannot break the row apart.
pub open spec fn entry_valid(e: MoodEntry) -> bool {
    &&& date_field_valid(e.date@)
    &&& time_field_valid(e.time@)
    &&& mood_input_valid(e.mood@)
    &&& line_text(e.description@)
}

/// Whether CSV must protect the field: it holds a delimiter, a quote, or a
/// line break.
pub open spec fn needs_quoting(f: Seq<char>) -> bool {
    exists|i: int|
        0 <= i < f.len() && (f[i] == ',' || f[i] == '"' || f[i] == '\n' || f[i] == '\r')
}

/// The field with every quote doubled.
pub open spec fn double_quotes(f: Seq<char>) -> Seq<char>
    decreases f.len(),
{
    if f.len() == 0 {
        Seq::empty()
    } else if f.last() == '"' {
        double_quotes(f.drop_last()) + seq!['"', '"']
    } else {
        double_quotes(f.drop_last()).push(f.last())
    }
}

/// A field as it stands in the file: wrapped in quotes, with inner quotes
/// doubled, exactly when it needs protecting.
pub open spec fn encode_field(f: Seq<char>) -> Seq<char> {
    if needs_quoting(f) {
        seq!['"'] + double_quotes(f) + seq!['"']
    } else {
        f
    }
}

/// One row of the log: the four encoded fields, comma-separated, ended by a
/// single newline.
pub open spec fn csv_row(
    date: Seq<char>,
    time: Seq<char>,
    mood: Seq<char>,
    description: Seq<char>,
) -> Seq<char> {
    encode_field(date) + seq![','] + encode_field(time) + seq![','] + encode_field(mood) + seq![
        ','
    ] + encode_field(description) + seq!['\n']
}

/// Relies on `csv::Writer::write_record` under its default configuration:
/// fields joined by commas, a field quoted — with embedded quotes doubled —
/// exactly when it holds a comma, quote, carriage return or newline, and the
/// record ended by a single newline. The writer drains into an in-memory
/// `Vec<u8>`, whose `io::Write` never fails, so neither fallible step can be
/// reached; the row is UTF-8 because the fields are.
#[verifier::external_body]
fn csv_encode_row(date: &str, time: &str, mood: &str, description: &str) -> (r: String)
    ensures
        r@ == csv_row(date@, time@, mood@, description@),
{
    let mut w = csv::Writer::from_writer(Vec::new());
    let res = w.write_record(&[date, time, mood, description]);
    let bytes = match w.into_inner() {
        Ok(b) => b,
        Err(_) => Vec::new(),
    };
    match (res, String::from_utf8(bytes)) {
        (Ok(()), Ok(s)) => s,
        _ => String::new(),
    }
}

/// The one line that recording appends to the log for this entry.
pub fn encode_record(e: &MoodEntry) -> (r: String)
    ensures
        r@ == csv_row(e.date@, e.time@, e.mood@, e.description@),
{
    csv_encode_row(e.date.as_str(), e.time.as_str(), e.mood.as_str(), e.description.as_str())
}

/// How many newline characters `s` holds.
pub open spec fn count_newline_chars(s: Seq<char>) -> nat
    decreases s.len(),
{
    if s.len() == 0 {
        0
    } else {
        count_newline_chars(s.drop_last()) + if s.last() == '\n' {
            1nat
        } else {
            0nat
        }
    }
}

pub proof fn lemma_count_chars_concat(a: Seq<char>, b: Seq<char>)
    ensures
        count_newline_chars(a + b) == count_newline_chars(a) + count_newline_chars(b),
    decreases b.len(),
{
    if b.len() == 0 {
        assert(a + b =~= a);
    } else {
        assert((a + b).drop_last() =~= a + b.drop_last());
        assert((a + b).last() == b.last());
        lemma_count_chars_concat(a, b.drop_last());
    }
}

pub proof fn lemma_line_text_no_newlines(s: Seq<char>)
    requires
        line_text(s),
    ensures
        count_newline_chars(s) == 0,
    decreases s.len(),
{
    if s.len() > 0 {
        assert(line_text(s.drop_last()));
        lemma_line_text_no_newlines(s.drop_last());
    }
}

pub proof fn lemma_double_quotes_line_text(f: Seq<char>)
    requires
        line_text(f),
    ensures
        line_text(double_quotes(f)),
    decreases f.len(),
{
    if f.len() > 0 {
        assert(line_text(f.drop_last()));
        lemma_double_quotes_line_text(f.drop_last());
    }
}

pub proof fn lemma_encode_field_line_text(f: Seq<char>)
    requires
        line_text(f),
    ensures
        line_text(encode_field(f)),
{
    lemma_double_quotes_line_text(f);
}

pub proof fn lemma_count_single(c: char)
    ensures
        count_newline_chars(seq![c]) == if c == '\n' {
            1nat
        } else {
            0nat
        },
{
    let s = seq![c];
    assert(s.len() == 1);
    assert(s.last() == c);
    assert(s.drop_last() =~= Seq::<char>::empty());
    assert(count_newline_chars(Seq::<char>::empty()) == 0);
    assert(count_newline_chars(s) == count_newline_chars(s.drop_last()) + if s.last() == '\n' {
        1nat
    } else {
        0nat
    });
}

/// A row made of single-line fields holds exactly one newline, the one that
/// ends it: appending a record always adds exactly one row to the log.
pub proof fn lemma_row_single_newline(
    date: Seq<char>,
    time: Seq<char>,
    mood: Seq<char>,
    description: Seq<char>,
)
    requires
        line_text(date),
        line_text(time),
        line_text(mood),
        line_text(description),
    ensures
        count_newline_chars(csv_row(date, time, mood, description)) == 1,
        csv_row(date, time, mood, description).last() == '\n',
{
    let row = csv_row(date, time, mood, description);
    lemma_encode_field_line_text(date);
    lemma_encode_field_line_text(time);
    lemma_encode_field_line_text(mood);
    lemma_encode_field_line_text(description);
    lemma_line_text_no_newlines(encode_field(date));
    lemma_line_text_no_newlines(encode_field(time));
    lemma_line_text_no_newlines(encode_field(mood));
    lemma_line_text_no_newlines(encode_field(description));
    lemma_count_chars_concat(
        encode_field(date) + seq![','] + encode_field(time) + seq![','] + encode_field(mood)
            + seq![','] + encode_field(description),
        seq!['\n'],
    );
    lemma_count_chars_concat(
        encode_field(date) + seq![','] + encode_field(time) + seq![','] + encode_field(mood)
            + seq![','],
        encode_field(description),
    );
    lemma_count_chars_concat(
        encode_field(date) + seq![','] + encode_field(time) + seq![','] + encode_field(mood),
        seq![','],
    );
    lemma_count_chars_concat(
        encode_field(date) + seq![','] + encode_field(time) + seq![','],
        encode_field(mood),
    );
    lemma_count_chars_concat(encode_field(date) + seq![','] + encode_field(time), seq![',']);
    lemma_count_chars_concat(encode_field(date) + seq![','], encode_field(time));
    lemma_count_chars_concat(encode_field(date), seq![',']);
    lemma_count_single(',');
    lemma_count_single('\n');
}

/// The text of a log that grew row by row.
pub open spec fn log_text(rows: Seq<Seq<char>>) -> Seq<char>
    decreases rows.len(),
{
    if rows.len() == 0 {
        Seq::empty()
    } else {
        log_text(rows.drop_last()) + rows.last()
    }
}

/// Appending `N` valid records leaves the file with exactly `N` newline
/// terminators, one per row.
pub proof fn lemma_log_row_count(rows: Seq<Seq<char>>)
    requires
        forall|i: int| 0 <= i < rows.len() ==> count_newline_chars(#[trigger] rows[i]) == 1,
    ensures
        count_newline_chars(log_text(rows)) == rows.len(),
    decreases rows.len(),
{
    if rows.len() > 0 {
        lemma_log_row_count(rows.drop_last());
        lemma_count_chars_concat(log_text(rows.drop_last()), rows.last());
    }
}

/// A field in one of the display forms, or any one-line description, can
/// never hold a line break.
pub proof fn lemma_date_field_line_text(s: Seq<char>)
    requires
        date_field_valid(s),
    ensures
        line_text(s),
{
    assert forall|i: int| 0 <= i < s.len() implies s[i] != '\n' && s[i] != '\r' by {
        if i == 4 || i == 7 {
            assert(s[i] == '-');
        } else {
            assert(is_digit(s[i]));
        }
    }
}

pub proof fn lemma_time_field_line_text(s: Seq<char>)
    requires
        time_field_valid(s),
    ensures
        line_text(s),
{
    assert forall|i: int| 0 <= i < s.len() implies s[i] != '\n' && s[i] != '\r' by {
        if i == 2 {
            assert(s[i] == ':');
        } else {
            assert(is_digit(s[i]));
        }
    }
}

/// A valid entry appends exactly one row: its encoding holds a single
/// newline, the terminator at its end.
pub proof fn lemma_valid_entry_single_row(e: MoodEntry)
    requires
        entry_valid(e),
    ensures
        count_newline_chars(csv_row(e.date@, e.time@, e.mood@, e.description@)) == 1,
        csv_row(e.date@, e.time@, e.mood@, e.description@).last() == '\n',
{
    lemma_date_field_line_text(e.date@);
    lemma_time_field_line_text(e.time@);
    assert(line_text(e.mood@));
    lemma_row_single_newline(e.date@, e.time@, e.mood@, e.description@);
}

/// The comma structure of a row: `s` split at every comma, the commas
/// themselves belonging to no segment.
pub open spec fn split_commas(s: Seq<char>) -> Seq<Seq<char>>
    decreases s.len(),
{
    if s.len() == 0 {
        seq![Seq::<char>::empty()]
    } else if s.last() == ',' {
        split_commas(s.drop_last()).push(Seq::<char>::empty())
    } else {
        let t = split_commas(s.drop_last());
        t.update(t.len() - 1, t.last().push(s.last()))
    }
}

pub proof fn lemma_split_commas_nonempty(s: Seq<char>)
    ensures
        split_commas(s).len() >= 1,
    decreases s.len(),
{
    if s.len() > 0 {
        lemma_split_commas_nonempty(s.drop_last());
    }
}

/// A separating comma splits cleanly: the segments of the whole are the
/// segments of each side.
pub proof fn lemma_split_commas_concat(a: Seq<char>, b: Seq<char>)
    ensures
        split_commas(a + seq![','] + b) == split_commas(a) + split_commas(b),
    decreases b.len(),
{
    if b.len() == 0 {
        assert((a + seq![','] + b) =~= a + seq![',']);
        assert((a + seq![',']).drop_last() =~= a);
        assert((a + seq![',']).last() == ',');
        assert(split_commas(a + seq![',']) == split_commas(a).push(Seq::<char>::empty()));
        assert(split_commas(Seq::<char>::empty()) == seq![Seq::<char>::empty()]);
        assert(split_commas(a).push(Seq::<char>::empty()) =~= split_commas(a) + split_commas(b));
    } else {
        let b1 = b.drop_last();
        let c = b.last();
        lemma_split_commas_concat(a, b1);
        lemma_split_commas_nonempty(b1);
        assert((a + seq![','] + b).drop_last() =~= a + seq![','] + b1);
        assert((a + seq![','] + b).last() == c);
        let u = split_commas(a);
        let v = split_commas(b1);
        if c == ',' {
            assert(split_commas(a + seq![','] + b) == (u + v).push(Seq::<char>::empty()));
            assert(split_commas(b) == v.push(Seq::<char>::empty()));
            assert((u + v).push(Seq::<char>::empty()) =~= u + v.push(Seq::<char>::empty()));
        } else {
            let t = u + v;
            assert(split_commas(a + seq![','] + b) == t.update(t.len() - 1, t.last().push(c)));
            assert(t.last() == v.last());
            assert(split_commas(b) == v.update(v.len() - 1, v.last().push(c)));
            assert(t.update(t.len() - 1, v.last().push(c)) =~= u + v.update(
                v.len() - 1,
                v.last().push(c),
            ));
        }
    }
}

/// A field with no comma in it stays in one piece.
pub proof fn lemma_split_commas_whole(f: Seq<char>)
    requires
        forall|i: int| 0 <= i < f.len() ==> f[i] != ',',
    ensures
        split_commas(f) == seq![f],
    decreases f.len(),
{
    if f.len() == 0 {
        assert(f =~= Seq::<char>::empty());
    } else {
        assert(forall|i: int| 0 <= i < f.drop_last().len() ==> f.drop_last()[i] != ',');
        lemma_split_commas_whole(f.drop_last());
        assert(f.last() != ',');
        let t = split_commas(f.drop_last());
        assert(t == seq![f.drop_last()]);
        assert(t.update(t.len() - 1, t.last().push(f.last())) =~= seq![f.drop_last().push(
            f.last(),
        )]);
        assert(f.drop_last().push(f.last()) =~= f);
    }
}

/// None of a valid entry's first three fields holds a comma, quote or line
/// break, so CSV never quotes them.
pub proof fn lemma_valid_fields_plain(e: MoodEntry)
    requires
        entry_valid(e),
    ensures
        !needs_quoting(e.date@),
        !needs_quoting(e.time@),
        !needs_quoting(e.mood@),
{
    assert forall|i: int| 0 <= i < e.date@.len() implies !(e.date@[i] == ',' || e.date@[i] == '"'
        || e.date@[i] == '\n' || e.date@[i] == '\r') by {
        if i == 4 || i == 7 {
            assert(e.date@[i] == '-');
        } else {
            assert(is_digit(e.date@[i]));
        }
    }
    assert forall|i: int| 0 <= i < e.time@.len() implies !(e.time@[i] == ',' || e.time@[i] == '"'
        || e.time@[i] == '\n' || e.time@[i] == '\r') by {
        if i == 2 {
            assert(e.time@[i] == ':');
        } else {
            assert(is_digit(e.time@[i]));
        }
    }
    assert forall|i: int| 0 <= i < e.mood@.len() implies !(e.mood@[i] == ',' || e.mood@[i] == '"'
        || e.mood@[i] == '\n' || e.mood@[i] == '\r') by {
        assert(49 <= e.mood@[i] as u32 <= 53);
    }
}

/// Rows are parsable: for a valid entry whose description CSV leaves bare,
/// splitting the appended row at its commas hands the four fields back
/// exactly as they were collected. (A description that CSV quotes is
/// recovered by any CSV reader instead; the quoting is what makes that
/// possible.)
pub proof fn lemma_row_fields_recoverable(e: MoodEntry)
    requires
        entry_valid(e),
        !needs_quoting(e.description@),
    ensures
        split_commas(csv_row(e.date@, e.time@, e.mood@, e.description@).drop_last())
            == seq![e.date@, e.time@, e.mood@, e.description@],
{
    let d = e.date@;
    let t = e.time@;
    let m = e.mood@;
    let x = e.description@;
    lemma_valid_fields_plain(e);
    let row = csv_row(d, t, m, x);
    assert(row.drop_last() =~= d + seq![','] + (t + seq![','] + (m + seq![','] + x)));
    lemma_split_commas_concat(d, t + seq![','] + (m + seq![','] + x));
    lemma_split_commas_concat(t, m + seq![','] + x);
    lemma_split_commas_concat(m, x);
    lemma_split_commas_whole(d);
    lemma_split_commas_whole(t);
    lemma_split_commas_whole(m);
    lemma_split_commas_whole(x);
    assert(seq![d] + (seq![t] + (seq![m] + seq![x])) =~= seq![d, t, m, x]);
}

/// The display forms the two strict parsers hand back are exactly what a
/// well-formed row needs: whatever the collector accepts may be appended.
pub proof fn lemma_parsed_date_is_valid_field(s: Seq<char>)
    requires
        date_input_valid(s),
    ensures
        date_field_valid(date_display(s)),
{
    let d = date_display(s);
    assert forall|i: int| (0 <= i < 4 || i == 5 || i == 6 || i == 8 || i == 9) implies is_digit(
        d[i],
    ) by {
        if i < 4 {
            assert(d[i] == s[i]);
        } else if i == 5 || i == 6 {
            assert(d[i] == s[i - 1]);
        } else {
            assert(d[i] == s[i - 2]);
        }
    }
    assert(d[4] == '-');
    assert(d[7] == '-');
    assert(two_digits(d, 5) == two_digits(s, 4));
    assert(two_digits(d, 8) == two_digits(s, 6));
    assert(four_digits(d, 0) == four_digits(s, 0));
}

pub proof fn lemma_parsed_time_is_valid_field(s: Seq<char>)
    requires
        time_input_valid(s),
    ensures
        time_field_valid(time_display(s)),
{
    let t = time_display(s);
    assert(t[0] == s[0]);
    assert(t[1] == s[1]);
    assert(t[2] == ':');
    assert(t[3] == s[2]);
    assert(t[4] == s[3]);
    assert(two_digits(t, 0) == two_digits(s, 0));
    assert(two_digits(t, 3) == two_digits(s, 2));
}

/// An entry whose date and time came out of the strict parsers, whose mood
/// is one accepted score, and whose description fits on one line, satisfies
/// the log's row invariant in full.
pub proof fn lemma_collected_entry_valid(e: MoodEntry, d: Seq<char>, t: Seq<char>)
    requires
        date_input_valid(d),
        e.date@ == date_display(d),
        time_input_valid(t),
        e.time@ == time_display(t),
        mood_input_valid(e.mood@),
        line_text(e.description@),
    ensures
        entry_valid(e),
{
    lemma_parsed_date_is_valid_field(d);
    lemma_parsed_time_is_valid_field(t);
}

} // verus!
