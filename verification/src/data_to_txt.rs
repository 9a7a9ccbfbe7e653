//! Export of records as lines of text.

use vstd::prelude::*;
use vstd::string::*;
use cozy_chess::Board;
use crate::partition::{record_count, spec_record_count, ConfigError};
use crate::position::{board_view, Position};
use crate::tablebases::probe::WDL;

verus! {

/// Positions between two progress reports of an export.
pub const PROGRESS_EVERY: u64 = 1000;

/// What to export and how.
pub struct Options {
    /// Where the text goes.
    pub output: String,
    /// Where the dataset lies.
    pub data_file: String,
    /// The name of the text format, `legacy` or `cudad`.
    pub format: String,
    /// The most positions to export; all of them without.
    pub limit: Option<u64>,
}

/// A text format.
#[derive(Clone, Copy, Debug, PartialEq, Eq, Structural)]
pub enum Format {
    /// `position | evaluation | outcome`
    Legacy,
    /// `position [outcome] evaluation`
    Cudad,
}

/// Why an export does not start.
#[derive(Clone, Copy, Debug, PartialEq, Eq, Structural)]
pub enum ExportError {
    /// The dataset's length is no whole number of records.
    Config(ConfigError),
    /// The options name a format that does not exist.
    UnknownFormat,
}

/// What an export is to do: the format of the lines and their number.
#[derive(Clone, Copy, Debug, PartialEq, Eq, Structural)]
pub struct Export {
    pub format: Format,
    pub count: u64,
}

/// The format with this name.
pub open spec fn spec_format_named(name: Seq<char>) -> Option<Format> {
    if name == "legacy"@ {
        Some(Format::Legacy)
    } else if name == "cudad"@ {
        Some(Format::Cudad)
    } else {
        None
    }
}

/// The outcome as the score of the game for White: `1.0` for a win, `0.5`
/// for a draw, `0.0` for a loss.
pub open spec fn spec_wdl_label(outcome: WDL) -> Seq<char> {
    match outcome {
        WDL::Loss => "0.0"@,
        WDL::Draw => "0.5"@,
        WDL::Win => "1.0"@,
    }
}

/// The positions to export: all that the dataset holds, or as many as the
/// limit allows if that is fewer.
pub open spec fn spec_export_count(count: u64, limit: Option<u64>) -> u64 {
    match limit {
        Some(most) => if most < count { most } else { count },
        None => count,
    }
}

/// What an export is to do, or why it does not start: the dataset is
/// checked first, then the name of the format.
pub open spec fn spec_export(
    format: Seq<char>,
    limit: Option<u64>,
    size_bytes: u64,
    record_width: u64,
) -> Result<Export, ExportError> {
    match spec_record_count(size_bytes, record_width) {
        Err(e) => Err(ExportError::Config(e)),
        Ok(count) => match spec_format_named(format) {
            None => Err(ExportError::UnknownFormat),
            Some(f) => Ok(Export { format: f, count: spec_export_count(count, limit) }),
        },
    }
}

impl Format {
    /// Finds a format by its name.
    pub fn named(name: &String) -> (r: Option<Format>)
        ensures
            r == spec_format_named(name@),
    {
        let legacy = String::from_str("legacy");
        let cudad = String::from_str("cudad");
        if *name == legacy {
            Some(Format::Legacy)
        } else if *name == cudad {
            Some(Format::Cudad)
        } else {
            None
        }
    }

    /// Writes one record as a line of this format, without the line break,
    /// given the text of its position.
    pub fn write_into(self, position: &str, cp: i16, outcome: WDL) -> (line: String)
        ensures
            line@ == spec_line(self, position@, cp as int, outcome),
    {
        let mut line = String::from_str(position);
        let number = decimal(cp);
        proof {
            reveal_strlit(" | ");
            reveal_strlit(" [");
            reveal_strlit("] ");
        }
        match self {
            Format::Legacy => {
                line.append(" | ");
                line.append(number.as_str());
                line.append(" | ");
                line.append(wdl_label(outcome));
            },
            Format::Cudad => {
                line.append(" [");
                line.append(wdl_label(outcome));
                line.append("] ");
                line.append(number.as_str());
            },
        }
        line
    }

    /// Writes one record as a line of this format, without the line break.
    /// The position is written as the rules engine writes a sound board.
    pub fn line(self, board: &Board, cp: i16, outcome: WDL) -> (line: String)
        requires
            board_view(*board).valid(),
        ensures
            line@ == spec_line(self, board_fen(*board), cp as int, outcome),
    {
        let position = board_text(board);
        self.write_into(position.as_str(), cp, outcome)
    }

    /// Writes one record as a line of this format, or nothing where the
    /// board is not sound: the board is tested first, and the rules engine
    /// writes only a sound one.
    pub fn try_line(self, board: &Board, cp: i16, outcome: WDL) -> (r: Option<String>)
        ensures
            r is Some <==> board_view(*board).valid(),
            r matches Some(line) ==> line@ == spec_line(
                self,
                board_fen(*board),
                cp as int,
                outcome,
            ),
    {
        match Position::from_board(board) {
            Ok(_) => Some(self.line(board, cp, outcome)),
            Err(_) => None,
        }
    }
}

/// The character of a decimal digit.
pub open spec fn digit_char(d: int) -> char {
    if d == 0 {
        '0'
    } else if d == 1 {
        '1'
    } else if d == 2 {
        '2'
    } else if d == 3 {
        '3'
    } else if d == 4 {
        '4'
    } else if d == 5 {
        '5'
    } else if d == 6 {
        '6'
    } else if d == 7 {
        '7'
    } else if d == 8 {
        '8'
    } else {
        '9'
    }
}

/// The decimal digits of a natural number, without leading zeros.
pub open spec fn spec_digits(n: nat) -> Seq<char>
    decreases n,
{
    if n < 10 {
        seq![digit_char(n as int)]
    } else {
        spec_digits(n / 10).push(digit_char((n % 10) as int))
    }
}

/// A whole number in decimal, with a minus sign where it is negative.
pub open spec fn spec_decimal(n: int) -> Seq<char> {
    if n < 0 {
        seq!['-'] + spec_digits((-n) as nat)
    } else {
        spec_digits(n as nat)
    }
}

/// A line of text for one record: `position | evaluation | outcome` in the
/// legacy format, `position [outcome] evaluation` in the other.
pub open spec fn spec_line(format: Format, position: Seq<char>, cp: int, outcome: WDL) -> Seq<char> {
    match format {
        Format::Legacy => position + seq![' ', '|', ' '] + spec_decimal(cp) + seq![' ', '|', ' ']
            + spec_wdl_label(outcome),
        Format::Cudad => position + seq![' ', '['] + spec_wdl_label(outcome) + seq![']', ' ']
            + spec_decimal(cp),
    }
}

fn digit(d: u32) -> (s: &'static str)
    requires
        d < 10,
    ensures
        s@ == seq![digit_char(d as int)],
{
    proof {
        reveal_strlit("0");
        reveal_strlit("1");
        reveal_strlit("2");
        reveal_strlit("3");
        reveal_strlit("4");
        reveal_strlit("5");
        reveal_strlit("6");
        reveal_strlit("7");
        reveal_strlit("8");
        reveal_strlit("9");
    }
    let s = if d == 0 {
        "0"
    } else if d == 1 {
        "1"
    } else if d == 2 {
        "2"
    } else if d == 3 {
        "3"
    } else if d == 4 {
        "4"
    } else if d == 5 {
        "5"
    } else if d == 6 {
        "6"
    } else if d == 7 {
        "7"
    } else if d == 8 {
        "8"
    } else {
        "9"
    };
    assert(s@ =~= seq![digit_char(d as int)]);
    s
}

fn digits(n: u32) -> (text: String)
    ensures
        text@ == spec_digits(n as nat),
    decreases n,
{
    if n < 10 {
        String::from_str(digit(n))
    } else {
        let mut text = digits(n / 10);
        text.append(digit(n % 10));
        text
    }
}

/// Writes a number in decimal.
pub fn decimal(n: i16) -> (text: String)
    ensures
        text@ == spec_decimal(n as int),
{
    if n < 0 {
        proof {
            reveal_strlit("-");
        }
        let mut text = String::from_str("-");
        let magnitude = digits((-(n as i32)) as u32);
        text.append(magnitude.as_str());
        text
    } else {
        digits(n as u32)
    }
}

/// The outcome as it is written in a line of text.
pub fn wdl_label(outcome: WDL) -> (label: &'static str)
    ensures
        label@ == spec_wdl_label(outcome),
{
    match outcome {
        WDL::Loss => "0.0",
        WDL::Draw => "0.5",
        WDL::Win => "1.0",
    }
}

/// Tells whether an export reports progress at the position with this
/// index: at every thousandth, starting with the first.
pub fn reports_progress(pos: u64) -> (b: bool)
    ensures
        b == (pos % PROGRESS_EVERY == 0),
{
    pos % PROGRESS_EVERY == 0
}

/// Plans an export from the options and the size of the dataset.
pub fn run(options: &Options, size_bytes: u64, record_width: u64) -> (r: Result<
    Export,
    ExportError,
>)
    ensures
        r == spec_export(options.format@, options.limit, size_bytes, record_width),
{
    let count = match record_count(size_bytes, record_width) {
        Ok(n) => n,
        Err(e) => {
            return Err(ExportError::Config(e));
        },
    };
    let count = match options.limit {
        Some(most) => if most < count {
            most
        } else {
            count
        },
        None => count,
    };
    match Format::named(&options.format) {
        Some(format) => Ok(Export { format, count }),
        None => Err(ExportError::UnknownFormat),
    }
}

/// What the `Display` of the rules engine's `Board` writes for a board: the
/// position in Forsyth-Edwards notation.
pub uninterp spec fn board_fen(board: Board) -> Seq<char>;

/// The `Display` of the rules engine's `Board`: the position in
/// Forsyth-Edwards notation. The text is a function of the board alone;
/// nothing else is claimed of it. The engine looks up the colour of every
/// piece and fails where a piece has none, so only a sound board is
/// admitted.
#[verifier::external_body]
fn board_text(board: &Board) -> (text: String)
    requires
        board_view(*board).valid(),
    ensures
        text@ == board_fen(*board),
{
    format!("{board}")
}

} // verus!
