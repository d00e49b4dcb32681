//! Archive names: `<prefix>YYYY-MM-DD.zip`, and the date that a name
//! carries.

use crate::calendar::{valid_ymd, CalendarDate, Ymd};
use vstd::prelude::*;

verus! {

/// How many characters of a name spell the date and the ending.
pub const DATE_TEXT_LEN: usize = 14;

/// A backup archive: the path it was found under, which tells one archive
/// from another, and the name of the file itself, which carries its date.
#[derive(Debug, PartialEq, Eq)]
pub struct BackupFile {
    pub path: String,
    pub file_name: String,
}

/// What is wrong with the name of an archive.
#[derive(Clone, Copy, Debug, PartialEq, Eq, Structural)]
pub enum NamingErrorKind {
    /// The name does not begin with the prefix.
    PrefixMismatch,
    /// What follows the prefix is not of the shape `YYYY-MM-DD.zip`.
    Malformed,
    /// The shape is right, but the calendar has no such day.
    InvalidDate,
}

/// The name of an archive that carries no date, and why it does not.
#[derive(Debug, PartialEq, Eq)]
pub struct NamingError {
    pub kind: NamingErrorKind,
    pub file_name: String,
}

/// One of the characters `0` to `9`.
pub open spec fn is_digit(c: char) -> bool {
    '0' <= c <= '9'
}

/// The number that a digit stands for.
pub open spec fn digit_value(c: char) -> int {
    c as int - '0' as int
}

/// Whether every character is a digit.
pub open spec fn all_digits(text: Seq<char>) -> bool {
    forall|i: int| 0 <= i < text.len() ==> is_digit(#[trigger] text[i])
}

/// The number that a run of digits spells in base ten; 0 for the empty run.
pub open spec fn decimal(digits: Seq<char>) -> int
    decreases digits.len(),
{
    if digits.len() == 0 {
        0
    } else {
        10 * decimal(digits.drop_last()) + digit_value(digits.last())
    }
}

/// The shape `YYYY-MM-DD.zip`: four digits, a dash, two digits, a dash, two
/// digits, and `.zip`, with nothing before, between or after.
pub open spec fn is_date_text(text: Seq<char>) -> bool {
    &&& text.len() == DATE_TEXT_LEN
    &&& all_digits(text.subrange(0, 4))
    &&& text[4] == '-'
    &&& all_digits(text.subrange(5, 7))
    &&& text[7] == '-'
    &&& all_digits(text.subrange(8, 10))
    &&& text.subrange(10, 14) == seq!['.', 'z', 'i', 'p']
}

/// The year, month and day that a text of the shape `YYYY-MM-DD.zip` spells.
pub open spec fn date_text_ymd(text: Seq<char>) -> Ymd {
    Ymd {
        year: decimal(text.subrange(0, 4)),
        month: decimal(text.subrange(5, 7)),
        day: decimal(text.subrange(8, 10)),
    }
}

/// What is wrong with a file name under a prefix, if anything is. The prefix
/// is taken letter for letter, and what follows it has to be of the shape
/// `YYYY-MM-DD.zip` and spell a day that the calendar has.
pub open spec fn fault_in_name(prefix: Seq<char>, file_name: Seq<char>) -> Option<
    NamingErrorKind,
> {
    if !prefix.is_prefix_of(file_name) {
        Some(NamingErrorKind::PrefixMismatch)
    } else if !is_date_text(file_name.skip(prefix.len() as int)) {
        Some(NamingErrorKind::Malformed)
    } else if !valid_ymd(date_in_name(prefix, file_name)) {
        Some(NamingErrorKind::InvalidDate)
    } else {
        None
    }
}

/// The date that a file name carries under a prefix, for a name with which
/// nothing is wrong.
pub open spec fn date_in_name(prefix: Seq<char>, file_name: Seq<char>) -> Ymd {
    date_text_ymd(file_name.skip(prefix.len() as int))
}

/// Whether `text` stands in `name` from position `at` on.
spec fn text_at(name: Seq<char>, at: int, text: Seq<char>) -> bool {
    &&& 0 <= at
    &&& at + text.len() <= name.len()
    &&& name.subrange(at, at + text.len()) == text
}

/// Whether `text` stands in `name` from position `at` on.
fn has_text_at(name: &str, at: usize, text: &str) -> (found: bool)
    ensures
        found == text_at(name@, at as int, text@),
{
    let name_len = name.unicode_len();
    let text_len = text.unicode_len();
    if at > name_len || text_len > name_len - at {
        return false;
    }
    let mut i: usize = 0;
    while i < text_len
        invariant
            i <= text_len,
            text_len == text@.len(),
            name_len == name@.len(),
            at + text_len <= name_len,
            forall|j: int| 0 <= j < i ==> name@[at + j] == text@[j],
        decreases text_len - i,
    {
        if name.get_char(at + i) != text.get_char(i) {
            assert(name@.subrange(at as int, at + text@.len())[i as int] != text@[i as int]);
            return false;
        }
        i += 1;
    }
    assert(name@.subrange(at as int, at + text@.len()) =~= text@);
    true
}

/// Whether the name begins with the prefix, letter for letter.
pub fn has_prefix(name: &str, prefix: &str) -> (begins: bool)
    ensures
        begins == prefix@.is_prefix_of(name@),
{
    let begins = has_text_at(name, 0, prefix);
    proof {
        if prefix@.len() <= name@.len() {
            assert(name@.subrange(0, prefix@.len() as int) =~= name@.take(prefix@.len() as int));
        }
    }
    begins
}

/// Ten to the power of `n`.
spec fn pow10(n: nat) -> nat
    decreases n,
{
    if n == 0 {
        1
    } else {
        10 * pow10((n - 1) as nat)
    }
}

/// The number that the `count` characters of `name` from position `at` on
/// spell, if they are all digits.
fn read_digits(name: &str, at: usize, count: usize) -> (number: Option<u32>)
    requires
        at + count <= name@.len() <= usize::MAX,
        count <= 4,
    ensures
        number is Some <==> all_digits(name@.subrange(at as int, at + count)),
        number matches Some(n) ==> n == decimal(name@.subrange(at as int, at + count)) && n
            <= 9999,
{
    let mut value: u32 = 0;
    let mut i: usize = 0;
    assert(pow10(4) == 10000) by {
        reveal_with_fuel(pow10, 5);
    }
    while i < count
        invariant
            i <= count <= 4,
            at + count <= name@.len() <= usize::MAX,
            all_digits(name@.subrange(at as int, at + i)),
            value == decimal(name@.subrange(at as int, at + i)),
            value < pow10(i as nat),
            pow10(i as nat) <= pow10(4) == 10000,
        decreases count - i,
    {
        let c = name.get_char(at + i);
        let ghost seen = name@.subrange(at as int, at + i);
        let ghost next = name@.subrange(at as int, at + i + 1);
        if !('0' <= c && c <= '9') {
            assert(next[i as int] == c);
            assert(!all_digits(name@.subrange(at as int, at + count))) by {
                assert(name@.subrange(at as int, at + count)[i as int] == c);
            }
            return None;
        }
        proof {
            assert(next.drop_last() =~= seen);
            assert(next.last() == c);
            assert(pow10((i + 1) as nat) == 10 * pow10(i as nat));
            assert(pow10((i + 1) as nat) <= pow10(4)) by {
                reveal_with_fuel(pow10, 5);
            }
            assert(all_digits(next)) by {
                assert forall|j: int| 0 <= j < next.len() implies is_digit(#[trigger] next[j]) by {
                    if j < i {
                        assert(next[j] == seen[j]);
                    }
                }
            }
        }
        value = value * 10 + (c as u32 - '0' as u32);
        i += 1;
    }
    Some(value)
}

/// The date that a file name carries under a prefix, or what is wrong with
/// the name.
pub fn parse_file_name(file_prefix: &str, file_name: &str) -> (parsed: Result<
    CalendarDate,
    NamingErrorKind,
>)
    ensures
        match parsed {
            Ok(date) => {
                &&& fault_in_name(file_prefix@, file_name@) is None
                &&& date@ == date_in_name(file_prefix@, file_name@)
            },
            Err(kind) => fault_in_name(file_prefix@, file_name@) == Some(kind),
        },
{
    if !has_prefix(file_name, file_prefix) {
        return Err(NamingErrorKind::PrefixMismatch);
    }
    let start = file_prefix.unicode_len();
    let ghost text = file_name@.skip(start as int);
    if file_name.unicode_len() - start != DATE_TEXT_LEN {
        return Err(NamingErrorKind::Malformed);
    }
    let year = read_digits(file_name, start, 4);
    let month = read_digits(file_name, start + 5, 2);
    let day = read_digits(file_name, start + 8, 2);
    let dashes = has_text_at(file_name, start + 4, "-") && has_text_at(file_name, start + 7, "-");
    let ending = has_text_at(file_name, start + 10, ".zip");
    proof {
        reveal_strlit("-");
        reveal_strlit(".zip");
        assert("-"@ =~= seq!['-']);
        assert(".zip"@ =~= seq!['.', 'z', 'i', 'p']);
        assert(text.subrange(0, 4) =~= file_name@.subrange(start + 0, start + 4));
        assert(text.subrange(5, 7) =~= file_name@.subrange(start + 5, start + 7));
        assert(text.subrange(8, 10) =~= file_name@.subrange(start + 8, start + 10));
        assert(text.subrange(10, 14) =~= file_name@.subrange(start + 10, start + 14));
        assert(file_name@.subrange(start + 4, start + 5) =~= seq![text[4]]);
        assert(file_name@.subrange(start + 7, start + 8) =~= seq![text[7]]);
        assert(seq![text[4]] == seq!['-'] <==> text[4] == '-') by {
            assert(seq![text[4]][0] == text[4]);
            assert(seq!['-'][0] == '-');
        }
        assert(seq![text[7]] == seq!['-'] <==> text[7] == '-') by {
            assert(seq![text[7]][0] == text[7]);
            assert(seq!['-'][0] == '-');
        }
    }
    match (year, month, day) {
        (Some(y), Some(m), Some(d)) if dashes && ending => {
            match CalendarDate::new(y as i32, m, d) {
                Some(date) => Ok(date),
                None => Err(NamingErrorKind::InvalidDate),
            }
        },
        _ => Err(NamingErrorKind::Malformed),
    }
}

/// `std::path::Path::file_name` of a path given as text, as text again.
/// Nothing is taken on trust of what comes back.
#[verifier::external_body]
fn final_component(path: &str) -> (name: Option<String>) {
    let name = std::path::Path::new(path).file_name()?;
    Some(name.to_str()?.to_owned())
}

impl BackupFile {
    /// The archive under `path` whose file goes by `file_name`; none where
    /// the path was found to end in no file name.
    pub fn with_name(path: &str, file_name: Option<String>) -> (found: Option<BackupFile>)
        ensures
            found is Some <==> file_name is Some,
            found matches Some(file) ==> file.path@ == path@ && Some(file.file_name) == file_name,
    {
        match file_name {
            Some(file_name) => Some(BackupFile { path: path.to_owned(), file_name }),
            None => None,
        }
    }

    /// The archive found under `path`, named by the last component of the
    /// path; none where the path has no such component. Which part of a path
    /// is its last component follows the path syntax of the platform, and is
    /// not stated here: `with_name` says what is made of each answer.
    pub fn from_path(path: &str) -> (found: Option<BackupFile>)
        ensures
            found matches Some(file) ==> file.path@ == path@,
    {
        BackupFile::with_name(path, final_component(path))
    }
}

/// The date that the name of an archive carries under a prefix, or an error
/// that names the file and says what is wrong with its name.
pub fn extract_date(file_prefix: &String, file: &BackupFile) -> (extracted: Result<
    CalendarDate,
    NamingError,
>)
    ensures
        match extracted {
            Ok(date) => {
                &&& fault_in_name(file_prefix@, file.file_name@) is None
                &&& date@ == date_in_name(file_prefix@, file.file_name@)
            },
            Err(error) => {
                &&& fault_in_name(file_prefix@, file.file_name@) == Some(error.kind)
                &&& error.file_name@ == file.file_name@
            },
        },
{
    match parse_file_name(file_prefix.as_str(), file.file_name.as_str()) {
        Ok(date) => Ok(date),
        Err(kind) => Err(NamingError { kind, file_name: file.file_name.clone() }),
    }
}

} // verus!
