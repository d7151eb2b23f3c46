use vstd::prelude::*;
use vstd::string::StrSliceExecFns;

verus! {

/// An ASCII decimal digit.
pub open spec fn is_digit(c: char) -> bool {
    48 <= c as u32 <= 57
}

pub open spec fn digit_val(c: char) -> int {
    c as u32 - 48
}

/// The value of the two digits at `i` and `i + 1`.
pub open spec fn two_digits(s: Seq<char>, i: int) -> int {
    10 * digit_val(s[i]) + digit_val(s[i + 1])
}

/// The value of the four digits starting at `i`.
pub open spec fn four_digits(s: Seq<char>, i: int) -> int {
    1000 * digit_val(s[i]) + 100 * digit_val(s[i + 1]) + 10 * digit_val(s[i + 2]) + digit_val(
        s[i + 3],
    )
}

pub open spec fn is_leap_year(y: int) -> bool {
    (y % 4 == 0 && y % 100 != 0) || y % 400 == 0
}

pub open spec fn days_in_month(y: int, m: int) -> int {
    if m == 2 {
        if is_leap_year(y) {
            29
        } else {
            28
        }
    } else if m == 4 || m == 6 || m == 9 || m == 11 {
        30
    } else {
        31
    }
}

/// A compact date entry: exactly eight digits, reading as a calendar date
/// `YYYYMMDD` with a real month and day (leap years included).
pub open spec fn date_input_valid(s: Seq<char>) -> bool {
    &&& s.len() == 8
    &&& forall|i: int| 0 <= i < 8 ==> is_digit(s[i])
    &&& 1 <= two_digits(s, 4) <= 12
    &&& 1 <= two_digits(s, 6) <= days_in_month(four_digits(s, 0), two_digits(s, 4))
}

/// The hyphenated display form of a valid compact date: `YYYY-MM-DD`.
pub open spec fn date_display(s: Seq<char>) -> Seq<char> {
    s.subrange(0, 4) + seq!['-'] + s.subrange(4, 6) + seq!['-'] + s.subrange(6, 8)
}

/// A compact time entry: exactly four digits, reading as a 24-hour wall
/// clock time `HHMM`.
pub open spec fn time_input_valid(s: Seq<char>) -> bool {
    &&& s.len() == 4
    &&& forall|i: int| 0 <= i < 4 ==> is_digit(s[i])
    &&& two_digits(s, 0) <= 23
    &&& two_digits(s, 2) <= 59
}

/// The display form of a valid compact time: `HH:MM`.
pub open spec fn time_display(s: Seq<char>) -> Seq<char> {
    s.subrange(0, 2) + seq![':'] + s.subrange(2, 4)
}

/// A mood entry: exactly one of the characters `1` through `5`.
pub open spec fn mood_input_valid(s: Seq<char>) -> bool {
    s.len() == 1 && 49 <= s[0] as u32 <= 53
}

/// Accepts exactly the eight-digit dates that name a real calendar day and
/// reformats them with hyphens; everything else is rejected.
pub fn parse_date(s: &str) -> (r: Option<String>)
    ensures
        (r is Some) == date_input_valid(s@),
        r matches Some(v) ==> v@ == date_display(s@),
{
    if s.unicode_len() != 8 {
        return Option::None;
    }
    let mut i: usize = 0;
    while i < 8
        invariant
            i <= 8,
            s@.len() == 8,
            forall|j: int| 0 <= j < i ==> is_digit(s@[j]),
        decreases 8 - i,
    {
        let c = s.get_char(i);
        if (c as u32) < 48 || (c as u32) > 57 {
            return Option::None;
        }
        i += 1;
    }
    let y: u32 = 1000 * (s.get_char(0) as u32 - 48) + 100 * (s.get_char(1) as u32 - 48) + 10 * (
    s.get_char(2) as u32 - 48) + (s.get_char(3) as u32 - 48);
    let m: u32 = 10 * (s.get_char(4) as u32 - 48) + (s.get_char(5) as u32 - 48);
    let d: u32 = 10 * (s.get_char(6) as u32 - 48) + (s.get_char(7) as u32 - 48);
    if m < 1 || m > 12 {
        return Option::None;
    }
    let last_day: u32 = if m == 2 {
        if (y % 4 == 0 && y % 100 != 0) || y % 400 == 0 {
            29
        } else {
            28
        }
    } else if m == 4 || m == 6 || m == 9 || m == 11 {
        30
    } else {
        31
    };
    if d < 1 || d > last_day {
        return Option::None;
    }
    let mut out = String::new();
    out.append(s.substring_char(0, 4));
    out.append("-");
    out.append(s.substring_char(4, 6));
    out.append("-");
    out.append(s.substring_char(6, 8));
    proof {
        reveal_strlit("-");
        assert("-"@ =~= seq!['-']);
        assert(out@ =~= date_display(s@));
    }
    Option::Some(out)
}

/// Accepts exactly the four-digit 24-hour times and reformats them with a
/// colon; everything else is rejected.
pub fn parse_time(s: &str) -> (r: Option<String>)
    ensures
        (r is Some) == time_input_valid(s@),
        r matches Some(v) ==> v@ == time_display(s@),
{
    if s.unicode_len() != 4 {
        return Option::None;
    }
    let mut i: usize = 0;
    while i < 4
        invariant
            i <= 4,
            s@.len() == 4,
            forall|j: int| 0 <= j < i ==> is_digit(s@[j]),
        decreases 4 - i,
    {
        let c = s.get_char(i);
        if (c as u32) < 48 || (c as u32) > 57 {
            return Option::None;
        }
        i += 1;
    }
    let h: u32 = 10 * (s.get_char(0) as u32 - 48) + (s.get_char(1) as u32 - 48);
    let mi: u32 = 10 * (s.get_char(2) as u32 - 48) + (s.get_char(3) as u32 - 48);
    if h > 23 || mi > 59 {
        return Option::None;
    }
    let mut out = String::new();
    out.append(s.substring_char(0, 2));
    out.append(":");
    out.append(s.substring_char(2, 4));
    proof {
        reveal_strlit(":");
        assert(":"@ =~= seq![':']);
        assert(out@ =~= time_display(s@));
    }
    Option::Some(out)
}

/// Accepts exactly the five mood scores `1` through `5`, handing the score
/// back unchanged; everything else is rejected.
pub fn parse_mood(s: &str) -> (r: Option<String>)
    ensures
        (r is Some) == mood_input_valid(s@),
        r matches Some(v) ==> v@ == s@,
{
    if s.unicode_len() != 1 {
        return Option::None;
    }
    let c = s.get_char(0);
    if (c as u32) >= 49 && (c as u32) <= 53 {
        Option::Some(s.to_owned())
    } else {
        Option::None
    }
}

/// An empty entry falls back on the supplied default, which is trusted as
/// already valid and bypasses the parser.
pub open spec fn uses_default(input: Seq<char>, default_response: Option<String>) -> bool {
    input.len() == 0 && default_response is Some
}

/// One round of the prompt engine, on one line of already-trimmed input:
/// empty input takes the default when there is one; otherwise the field's
/// parser decides, and a rejection (`None`) means the caller must prompt
/// again.
pub fn collect_step<F: Fn(&str) -> Option<String>>(
    trimmed: &str,
    default_response: &Option<String>,
    parse: &F,
) -> (r: Option<String>)
    requires
        call_requires(*parse, (trimmed,)),
    ensures
        uses_default(trimmed@, *default_response) ==> (*default_response matches Some(d) && r
            == Some(d)),
        !uses_default(trimmed@, *default_response) ==> call_ensures(*parse, (trimmed,), r),
{
    if trimmed.unicode_len() == 0 {
        if let Option::Some(d) = default_response {
            return Option::Some(d.clone());
        }
    }
    parse(trimmed)
}

/// What one scripted input line does to the engine: taken as the default,
/// accepted by the parser, or rejected.
pub open spec fn step_accepts<F: Fn(&str) -> Option<String>>(
    parse: F,
    input: Seq<char>,
    default_response: Option<String>,
    v: String,
) -> bool {
    if uses_default(input, default_response) {
        default_response matches Some(d) && v == d
    } else {
        exists|s: &str| s@ == input && call_ensures(parse, (s,), Some(v))
    }
}

pub open spec fn step_rejects<F: Fn(&str) -> Option<String>>(
    parse: F,
    input: Seq<char>,
    default_response: Option<String>,
) -> bool {
    !uses_default(input, default_response) && exists|s: &str|
        s@ == input && call_ensures(parse, (s,), Option::<String>::None)
}

/// The whole retry loop, run against a finite script of already-trimmed
/// input lines: every rejected line costs one retry prompt and the loop
/// goes on; the first line taken as default or accepted by the parser ends
/// it. The result carries how many lines were rejected first, and the loop
/// never ends on its own while inputs keep being rejected.
pub fn collect_from<F: Fn(&str) -> Option<String>>(
    inputs: &Vec<String>,
    default_response: &Option<String>,
    parse: &F,
) -> (r: Option<(String, usize)>)
    requires
        forall|s: &str| call_requires(*parse, (s,)),
    ensures
        r matches Some(vi) ==> {
            &&& vi.1 < inputs@.len()
            &&& step_accepts(*parse, inputs@[vi.1 as int]@, *default_response, vi.0)
            &&& forall|j: int|
                0 <= j < vi.1 ==> step_rejects(*parse, inputs@[j]@, *default_response)
        },
        r is None ==> forall|j: int|
            0 <= j < inputs@.len() ==> step_rejects(*parse, inputs@[j]@, *default_response),
{
    let mut i: usize = 0;
    while i < inputs.len()
        invariant
            i <= inputs@.len(),
            forall|s: &str| call_requires(*parse, (s,)),
            forall|j: int| 0 <= j < i ==> step_rejects(*parse, inputs@[j]@, *default_response),
        decreases inputs@.len() - i,
    {
        let line: &str = inputs[i].as_str();
        match collect_step(line, default_response, parse) {
            Option::Some(v) => {
                proof {
                    if !uses_default(line@, *default_response) {
                        assert(exists|s: &str|
                            s@ == inputs@[i as int]@ && call_ensures(*parse, (s,), Some(v)));
                    }
                }
                return Option::Some((v, i));
            },
            Option::None => {
                proof {
                    assert(exists|s: &str|
                        s@ == inputs@[i as int]@ && call_ensures(
                            *parse,
                            (s,),
                            Option::<String>::None,
                        ));
                }
            },
        }
        i += 1;
    }
    Option::None
}

} // verus!

