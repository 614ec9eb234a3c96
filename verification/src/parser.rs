//! A parser for the rover script format.

use vstd::prelude::*;
use vstd::string::StrSliceExecFns;

use crate::rover::{Command, Grid, GridView, Orientation, Rover, RoverView};
use crate::vector::Vector;

verus! {

/// What went wrong at one place in the input.
#[derive(Debug, Clone, Copy, PartialEq, Eq, Structural)]
pub enum ErrorKind {
    /// A number was expected and the character there is not a digit.
    ExpectedDigit,
    /// A number does not fit in a 32-bit signed integer.
    NumberOutOfRange,
    /// The single space between the two grid numbers is missing.
    ExpectedSpace,
    /// Characters follow a complete descriptor on its line.
    TrailingCharacters,
    /// A rover entry does not start with `(`.
    ExpectedOpenParen,
    /// The comma between rover fields is missing.
    ExpectedComma,
    /// The orientation letter is missing or is not one of `N`, `E`, `S`, `W`.
    ExpectedOrientation,
    /// The closing `)` of a rover entry is missing.
    ExpectedCloseParen,
    /// A character in the command list is not one of `L`, `R`, `F`.
    UnknownCommand,
}

impl ErrorKind {
    /// A human-readable description of the problem.
    pub fn message(&self) -> &'static str {
        match self {
            ErrorKind::ExpectedDigit => "expected a digit",
            ErrorKind::NumberOutOfRange => "number out of range for a 32-bit signed integer",
            ErrorKind::ExpectedSpace => "expected a single space between the grid numbers",
            ErrorKind::TrailingCharacters => "unexpected trailing characters",
            ErrorKind::ExpectedOpenParen => "expected '(' to start a rover entry",
            ErrorKind::ExpectedComma => "expected ','",
            ErrorKind::ExpectedOrientation => "expected an orientation letter: one of N, E, S, W",
            ErrorKind::ExpectedCloseParen => "expected ')' to close a rover entry",
            ErrorKind::UnknownCommand => "expected a command letter: one of L, R, F",
        }
    }
}

/// One syntax error: the 1-based line, the 0-based column of the offending
/// character within that line, and what was wrong there.
#[derive(Debug, Clone, Copy, PartialEq, Eq, Structural)]
pub struct ParseError {
    pub line: usize,
    pub col: usize,
    pub kind: ErrorKind,
}

/// The mathematical value of a [`ParseError`].
pub struct ErrorView {
    pub line: int,
    pub col: int,
    pub kind: ErrorKind,
}

impl View for ParseError {
    type V = ErrorView;

    open spec fn view(&self) -> ErrorView {
        ErrorView { line: self.line as int, col: self.col as int, kind: self.kind }
    }
}

/// An error inside one line, before the line number is known: the 0-based
/// column and the kind of problem.
pub struct LineErr {
    pub col: int,
    pub kind: ErrorKind,
}

/// Whitespace that may pad tokens inside a line: space, tab, and the
/// carriage return left by a `\r\n` line break.
pub open spec fn is_line_ws(c: char) -> bool {
    c == ' ' || c == '\t' || c == '\r'
}

/// A decimal digit.
pub open spec fn is_digit_char(c: char) -> bool {
    '0' as int <= c as int && c as int <= '9' as int
}

/// The numeric value of a decimal digit.
pub open spec fn digit_val(c: char) -> int {
    c as int - '0' as int
}

/// The lines of a text, split at every `\n`. A text with no `\n` is a
/// single line; every `\n` ends the line before it, so a trailing `\n`
/// produces a final empty line.
pub open spec fn split_lines(s: Seq<char>) -> Seq<Seq<char>>
    decreases s.len(),
{
    if s.len() == 0 {
        seq![Seq::<char>::empty()]
    } else {
        let prev = split_lines(s.drop_last());
        if s.last() == '\n' {
            prev.push(Seq::<char>::empty())
        } else {
            prev.update(prev.len() - 1, prev.last().push(s.last()))
        }
    }
}

/// The first position at or after `i` that does not hold line whitespace,
/// or the end of the line.
pub open spec fn skip_ws(s: Seq<char>, i: int) -> int
    decreases s.len() - i,
{
    if 0 <= i < s.len() && is_line_ws(s[i]) {
        skip_ws(s, i + 1)
    } else {
        i
    }
}

/// The end of the run of decimal digits that starts at `i`.
pub open spec fn scan_digits(s: Seq<char>, i: int) -> int
    decreases s.len() - i,
{
    if 0 <= i < s.len() && is_digit_char(s[i]) {
        scan_digits(s, i + 1)
    } else {
        i
    }
}

/// The value of a string of decimal digits, most significant first.
pub open spec fn digits_value(s: Seq<char>) -> int
    decreases s.len(),
{
    if s.len() == 0 {
        0
    } else {
        digits_value(s.drop_last()) * 10 + digit_val(s.last())
    }
}

/// A string of decimal digits has a non-negative value.
pub proof fn lemma_digits_value_nonneg(s: Seq<char>)
    requires
        forall|k: int| 0 <= k < s.len() ==> is_digit_char(#[trigger] s[k]),
    ensures
        digits_value(s) >= 0,
    decreases s.len(),
{
    if s.len() > 0 {
        lemma_digits_value_nonneg(s.drop_last());
    }
}

/// A signed 32-bit decimal integer read from position `i` of a line: an
/// optional sign, then at least one digit. On success the result is the
/// value and the position just after the digits; the value must fit in a
/// 32-bit signed integer.
pub open spec fn spec_parse_int(s: Seq<char>, i: int) -> Result<(int, int), LineErr> {
    let neg = i < s.len() && s[i] == '-';
    let signed = i < s.len() && (s[i] == '-' || s[i] == '+');
    let j = if signed {
        i + 1
    } else {
        i
    };
    if !(j < s.len() && is_digit_char(s[j])) {
        Err(LineErr { col: j, kind: ErrorKind::ExpectedDigit })
    } else {
        let e = scan_digits(s, j);
        let mag = digits_value(s.subrange(j, e));
        let v = if neg {
            -mag
        } else {
            mag
        };
        if v < -2147483648 || v > 2147483647 {
            Err(LineErr { col: i, kind: ErrorKind::NumberOutOfRange })
        } else {
            Ok((v, e))
        }
    }
}

/// The orientation a letter denotes, if any: `N`, `E`, `S` or `W`,
/// case-sensitive.
pub open spec fn orientation_char(c: char) -> Option<Orientation> {
    if c == 'N' {
        Some(Orientation::N)
    } else if c == 'E' {
        Some(Orientation::E)
    } else if c == 'S' {
        Some(Orientation::S)
    } else if c == 'W' {
        Some(Orientation::W)
    } else {
        None
    }
}

/// A command letter: `L`, `R` or `F`, case-sensitive.
pub open spec fn is_command_char(c: char) -> bool {
    c == 'L' || c == 'R' || c == 'F'
}

/// The command a letter denotes, meaningful only on command letters.
pub open spec fn command_char(c: char) -> Command {
    if c == 'L' {
        Command::Left
    } else if c == 'R' {
        Command::Right
    } else {
        Command::Forward
    }
}

/// The end of the run of command letters that starts at `i`.
pub open spec fn scan_commands(s: Seq<char>, i: int) -> int
    decreases s.len() - i,
{
    if 0 <= i < s.len() && is_command_char(s[i]) {
        scan_commands(s, i + 1)
    } else {
        i
    }
}

/// The commands written between positions `i` and `e` of a line, in order.
pub open spec fn commands_in(s: Seq<char>, i: int, e: int) -> Seq<Command>
    decreases e - i,
{
    if i < e {
        commands_in(s, i, e - 1).push(command_char(s[e - 1]))
    } else {
        Seq::<Command>::empty()
    }
}

/// A rover descriptor read from position `i` of a line:
/// `"(" int "," int "," orientation-letter ")"`, with line whitespace
/// permitted around every token. On success the result is the two
/// coordinates, the orientation, and the position just after the `)`.
pub open spec fn spec_parse_rover(s: Seq<char>, i: int) -> Result<
    (int, int, Orientation, int),
    LineErr,
> {
    let a = skip_ws(s, i);
    if !(a < s.len() && s[a] == '(') {
        Err(LineErr { col: a, kind: ErrorKind::ExpectedOpenParen })
    } else {
        match spec_parse_int(s, skip_ws(s, a + 1)) {
            Err(e) => Err(e),
            Ok((x, e1)) => {
                let c = skip_ws(s, e1);
                if !(c < s.len() && s[c] == ',') {
                    Err(LineErr { col: c, kind: ErrorKind::ExpectedComma })
                } else {
                    match spec_parse_int(s, skip_ws(s, c + 1)) {
                        Err(e) => Err(e),
                        Ok((y, e2)) => {
                            let f = skip_ws(s, e2);
                            if !(f < s.len() && s[f] == ',') {
                                Err(LineErr { col: f, kind: ErrorKind::ExpectedComma })
                            } else {
                                let g = skip_ws(s, f + 1);
                                if !(g < s.len()) {
                                    Err(LineErr { col: g, kind: ErrorKind::ExpectedOrientation })
                                } else {
                                    match orientation_char(s[g]) {
                                        None => Err(
                                            LineErr { col: g, kind: ErrorKind::ExpectedOrientation },
                                        ),
                                        Some(o) => {
                                            let h = skip_ws(s, g + 1);
                                            if !(h < s.len() && s[h] == ')') {
                                                Err(
                                                    LineErr {
                                                        col: h,
                                                        kind: ErrorKind::ExpectedCloseParen,
                                                    },
                                                )
                                            } else {
                                                Ok((x, y, o, h + 1))
                                            }
                                        },
                                    }
                                }
                            }
                        },
                    }
                }
            },
        }
    }
}

/// A whole rover entry line: a rover descriptor, then an optional run of
/// command letters, with line whitespace permitted before, between and
/// after; nothing else may follow on the line.
pub open spec fn spec_parse_entry(line: Seq<char>) -> Result<(RoverView, Seq<Command>), LineErr> {
    match spec_parse_rover(line, 0) {
        Err(e) => Err(e),
        Ok((x, y, o, end)) => {
            let i = skip_ws(line, end);
            let e2 = scan_commands(line, i);
            let j = skip_ws(line, e2);
            if j < line.len() {
                Err(LineErr { col: j, kind: ErrorKind::UnknownCommand })
            } else {
                let d = o.spec_unit_vector();
                Ok(
                    (
                        RoverView { x, y, dx: d.x as int, dy: d.y as int, lost: false },
                        commands_in(line, i, e2),
                    ),
                )
            }
        },
    }
}

/// The grid descriptor line: two signed integers separated by a single
/// space, with line whitespace permitted before and after the pair.
pub open spec fn spec_parse_grid(line: Seq<char>) -> Result<GridView, LineErr> {
    match spec_parse_int(line, skip_ws(line, 0)) {
        Err(e) => Err(e),
        Ok((m, e1)) => {
            if !(e1 < line.len() && line[e1] == ' ') {
                Err(LineErr { col: e1, kind: ErrorKind::ExpectedSpace })
            } else {
                match spec_parse_int(line, e1 + 1) {
                    Err(e) => Err(e),
                    Ok((n, e2)) => {
                        let j = skip_ws(line, e2);
                        if j < line.len() {
                            Err(LineErr { col: j, kind: ErrorKind::TrailingCharacters })
                        } else {
                            Ok(GridView { m, n })
                        }
                    },
                }
            }
        },
    }
}

/// A line that holds nothing but line whitespace.
pub open spec fn line_blank(line: Seq<char>) -> bool {
    skip_ws(line, 0) == line.len()
}

/// A rover descriptor alone on a line, with nothing after it but line
/// whitespace.
pub open spec fn spec_parse_rover_only(s: Seq<char>) -> Result<RoverView, LineErr> {
    match spec_parse_rover(s, 0) {
        Err(e) => Err(e),
        Ok((x, y, o, end)) => {
            let j = skip_ws(s, end);
            if j < s.len() {
                Err(LineErr { col: j, kind: ErrorKind::TrailingCharacters })
            } else {
                let d = o.spec_unit_vector();
                Ok(RoverView { x, y, dx: d.x as int, dy: d.y as int, lost: false })
            }
        },
    }
}

/// A command list alone on a line: a run of command letters, padded by
/// line whitespace, with nothing else on the line.
pub open spec fn spec_parse_commands(s: Seq<char>) -> Result<Seq<Command>, LineErr> {
    let i = skip_ws(s, 0);
    let e = scan_commands(s, i);
    let j = skip_ws(s, e);
    if j < s.len() {
        Err(LineErr { col: j, kind: ErrorKind::UnknownCommand })
    } else {
        Ok(commands_in(s, i, e))
    }
}

/// The mathematical value of a parsed program: the grid and, in input
/// order, each rover's starting state with its command list.
pub struct ProgramView {
    pub grid: GridView,
    pub entries: Seq<(RoverView, Seq<Command>)>,
}

/// The entries of the well-formed, non-blank rover lines, in order.
/// Malformed lines contribute errors instead; see [`entry_errors`].
pub open spec fn entries_of(ls: Seq<Seq<char>>) -> Seq<(RoverView, Seq<Command>)>
    decreases ls.len(),
{
    if ls.len() == 0 {
        Seq::<(RoverView, Seq<Command>)>::empty()
    } else {
        let pre = entries_of(ls.drop_last());
        if line_blank(ls.last()) {
            pre
        } else {
            match spec_parse_entry(ls.last()) {
                Ok(en) => pre.push(en),
                Err(_) => pre,
            }
        }
    }
}

/// The errors of the malformed rover lines, in order, one per bad line;
/// `base` is the 1-based number of the first line of `ls`.
pub open spec fn entry_errors(ls: Seq<Seq<char>>, base: int) -> Seq<ErrorView>
    decreases ls.len(),
{
    if ls.len() == 0 {
        Seq::<ErrorView>::empty()
    } else {
        let pre = entry_errors(ls.drop_last(), base);
        if line_blank(ls.last()) {
            pre
        } else {
            match spec_parse_entry(ls.last()) {
                Ok(_) => pre,
                Err(e) => pre.push(
                    ErrorView { line: base + ls.len() - 1, col: e.col, kind: e.kind },
                ),
            }
        }
    }
}

/// The whole input: the first line is the grid descriptor, every later
/// non-blank line is one rover entry. When anything is malformed the
/// result is the full list of errors, the grid error first and then one
/// error per bad entry line, in line order; no program is produced.
pub open spec fn spec_parse(s: Seq<char>) -> Result<ProgramView, Seq<ErrorView>> {
    let ls = split_lines(s);
    let rest = ls.drop_first();
    let eerrs = entry_errors(rest, 2);
    match spec_parse_grid(ls[0]) {
        Ok(g) => if eerrs.len() == 0 {
            Ok(ProgramView { grid: g, entries: entries_of(rest) })
        } else {
            Err(eerrs)
        },
        Err(e) => Err(seq![ErrorView { line: 1, col: e.col, kind: e.kind }] + eerrs),
    }
}

/// Parsing is deterministic and idempotent: the parse result is a pure
/// function of the text, so two programs obtained by parsing the same
/// valid text are structurally equal. The contract of [`parse_input`]
/// pins every parsed program to `spec_parse` of the text, so this carries
/// over to any two of its calls on equal input.
pub proof fn lemma_parse_deterministic(text: Seq<char>, p1: ProgramView, p2: ProgramView)
    requires
        spec_parse(text) == Ok::<ProgramView, Seq<ErrorView>>(p1),
        spec_parse(text) == Ok::<ProgramView, Seq<ErrorView>>(p2),
    ensures
        p1 == p2,
{
}

/// A malformed, non-blank line at index `k` contributes an error carrying
/// its own line number to the collected error list.
proof fn lemma_entry_errors_has_line(ls: Seq<Seq<char>>, base: int, k: int)
    requires
        0 <= k < ls.len(),
        !line_blank(ls[k]),
        spec_parse_entry(ls[k]) is Err,
    ensures
        exists|j: int|
            0 <= j < entry_errors(ls, base).len() && (#[trigger] entry_errors(ls, base)[j]).line
                == base + k,
    decreases ls.len(),
{
    let es = entry_errors(ls, base);
    if k == ls.len() - 1 {
        assert(es[es.len() - 1].line == base + k);
    } else {
        lemma_entry_errors_has_line(ls.drop_last(), base, k);
        let pre = entry_errors(ls.drop_last(), base);
        let j = choose|j: int| 0 <= j < pre.len() && (#[trigger] pre[j]).line == base + k;
        assert(es[j].line == base + k);
    }
}

/// Malformed input yields at least one error and no program, regardless
/// of how much of the remaining input is well formed: if the grid line or
/// any non-blank rover line fails to parse, the whole parse fails.
pub proof fn lemma_malformed_input_fails(text: Seq<char>)
    requires
        spec_parse_grid(split_lines(text)[0]) is Err || exists|k: int|
            0 <= k < split_lines(text).drop_first().len() && !line_blank(
                split_lines(text).drop_first()[k],
            ) && (#[trigger] spec_parse_entry(split_lines(text).drop_first()[k])) is Err,
    ensures
        spec_parse(text) is Err,
        spec_parse(text)->Err_0.len() >= 1,
{
    let rest = split_lines(text).drop_first();
    if spec_parse_grid(split_lines(text)[0]) is Err {
    } else {
        let k = choose|k: int|
            0 <= k < rest.len() && !line_blank(rest[k]) && (#[trigger] spec_parse_entry(
                rest[k],
            )) is Err;
        lemma_entry_errors_has_line(rest, 2, k);
    }
}

/// Error aggregation: an input with two independently malformed rover
/// lines yields at least two reported errors, not just the first.
pub proof fn lemma_error_aggregation(text: Seq<char>, k1: int, k2: int)
    requires
        k1 != k2,
        0 <= k1 < split_lines(text).drop_first().len(),
        0 <= k2 < split_lines(text).drop_first().len(),
        !line_blank(split_lines(text).drop_first()[k1]),
        !line_blank(split_lines(text).drop_first()[k2]),
        spec_parse_entry(split_lines(text).drop_first()[k1]) is Err,
        spec_parse_entry(split_lines(text).drop_first()[k2]) is Err,
    ensures
        spec_parse(text) is Err,
        spec_parse(text)->Err_0.len() >= 2,
{
    let rest = split_lines(text).drop_first();
    let es = entry_errors(rest, 2);
    lemma_entry_errors_has_line(rest, 2, k1);
    lemma_entry_errors_has_line(rest, 2, k2);
    let j1 = choose|j: int| 0 <= j < es.len() && (#[trigger] es[j]).line == 2 + k1;
    let j2 = choose|j: int| 0 <= j < es.len() && (#[trigger] es[j]).line == 2 + k2;
    assert(j1 != j2);
    assert(es.len() >= 2);
}

/// All-blank lines contribute neither entries nor errors.
proof fn lemma_all_blank(ls: Seq<Seq<char>>, base: int)
    requires
        forall|k: int| 0 <= k < ls.len() ==> line_blank(#[trigger] ls[k]),
    ensures
        entries_of(ls) == Seq::<(RoverView, Seq<Command>)>::empty(),
        entry_errors(ls, base) == Seq::<ErrorView>::empty(),
    decreases ls.len(),
{
    if ls.len() > 0 {
        lemma_all_blank(ls.drop_last(), base);
    }
}

/// Grid-only input is valid: a well-formed grid line followed by nothing
/// but blank lines parses successfully to that grid with an empty entry
/// list.
pub proof fn lemma_grid_only_input(text: Seq<char>, g: GridView)
    requires
        spec_parse_grid(split_lines(text)[0]) == Ok::<GridView, LineErr>(g),
        forall|k: int|
            0 <= k < split_lines(text).drop_first().len() ==> line_blank(
                #[trigger] split_lines(text).drop_first()[k],
            ),
    ensures
        spec_parse(text) == Ok::<ProgramView, Seq<ErrorView>>(
            (ProgramView { grid: g, entries: Seq::<(RoverView, Seq<Command>)>::empty() }),
        ),
{
    lemma_all_blank(split_lines(text).drop_first(), 2);
}

/// Whether `c` is a decimal digit.
fn digit_exec(c: char) -> (r: bool)
    ensures
        r == is_digit_char(c),
{
    c as u32 >= 48 && c as u32 <= 57
}

/// Whether `c` is line whitespace.
fn line_ws_exec(c: char) -> (r: bool)
    ensures
        r == is_line_ws(c),
{
    c == ' ' || c == '\t' || c == '\r'
}

/// Skip line whitespace from position `i`.
fn skip_ws_exec(line: &Vec<char>, i: usize) -> (r: usize)
    requires
        i <= line@.len(),
    ensures
        r == skip_ws(line@, i as int),
        i <= r <= line@.len(),
{
    let mut j = i;
    while j < line.len() && line_ws_exec(line[j])
        invariant
            i <= j <= line@.len(),
            skip_ws(line@, i as int) == skip_ws(line@, j as int),
        decreases line@.len() - j,
    {
        j = j + 1;
    }
    j
}

/// Read a signed 32-bit decimal integer starting at `start`.
fn parse_int_at(line: &Vec<char>, start: usize) -> (r: Result<(i32, usize), (usize, ErrorKind)>)
    requires
        start <= line@.len(),
    ensures
        (match r {
            Ok(p) => {
                &&& spec_parse_int(line@, start as int) == Ok::<(int, int), LineErr>(
                    (p.0 as int, p.1 as int),
                )
                &&& start <= p.1 <= line@.len()
            },
            Err(e) => spec_parse_int(line@, start as int) == Err::<(int, int), LineErr>(
                LineErr { col: e.0 as int, kind: e.1 },
            ) && e.0 <= line@.len(),
        }),
{
    let n = line.len();
    let neg = start < n && line[start] == '-';
    let signed = start < n && (line[start] == '-' || line[start] == '+');
    let dstart = if signed {
        start + 1
    } else {
        start
    };
    if !(dstart < n && digit_exec(line[dstart])) {
        return Err((dstart, ErrorKind::ExpectedDigit));
    }
    let mut j = dstart;
    let mut acc: u64 = 0;
    proof {
        assert(line@.subrange(dstart as int, dstart as int) =~= Seq::<char>::empty());
    }
    while j < n && digit_exec(line[j])
        invariant
            dstart <= j <= n,
            n == line@.len(),
            scan_digits(line@, dstart as int) == scan_digits(line@, j as int),
            forall|k: int| dstart <= k < j ==> is_digit_char(#[trigger] line@[k]),
            digits_value(line@.subrange(dstart as int, j as int)) <= 2147483648
                ==> acc == digits_value(line@.subrange(dstart as int, j as int)),
            digits_value(line@.subrange(dstart as int, j as int)) > 2147483648
                ==> acc > 2147483648,
            acc <= 21474836489,
        decreases line@.len() - j,
    {
        let d: u64 = (line[j] as u32 - 48) as u64;
        proof {
            lemma_digits_value_nonneg(line@.subrange(dstart as int, j as int));
            assert(line@.subrange(dstart as int, j as int + 1).drop_last() =~= line@.subrange(
                dstart as int,
                j as int,
            ));
            assert(line@.subrange(dstart as int, j as int + 1).last() == line@[j as int]);
        }
        if acc <= 2147483648 {
            acc = acc * 10 + d;
        }
        j = j + 1;
    }
    let ghost e = scan_digits(line@, dstart as int);
    let ghost digits = line@.subrange(dstart as int, e);
    let ghost mag = digits_value(digits);
    proof {
        assert(e == j as int);
        lemma_digits_value_nonneg(digits);
    }
    if neg {
        if acc > 2147483648 {
            return Err((start, ErrorKind::NumberOutOfRange));
        }
        let v: i32 = (-(acc as i64)) as i32;
        proof {
            assert(mag <= 2147483648 && acc == mag);
            assert(v as int == -mag);
        }
        Ok((v, j))
    } else {
        if acc > 2147483647 {
            return Err((start, ErrorKind::NumberOutOfRange));
        }
        let v: i32 = acc as i32;
        proof {
            assert(mag <= 2147483647 && acc == mag);
        }
        Ok((v, j))
    }
}

/// The orientation a letter denotes, if any.
fn orientation_exec(c: char) -> (r: Option<Orientation>)
    ensures
        r == orientation_char(c),
{
    if c == 'N' {
        Some(Orientation::N)
    } else if c == 'E' {
        Some(Orientation::E)
    } else if c == 'S' {
        Some(Orientation::S)
    } else if c == 'W' {
        Some(Orientation::W)
    } else {
        None
    }
}

/// Read a rover descriptor starting at `start`.
fn parse_rover_at(line: &Vec<char>, start: usize) -> (r: Result<
    (i32, i32, Orientation, usize),
    (usize, ErrorKind),
>)
    requires
        start <= line@.len(),
    ensures
        (match r {
            Ok(q) => {
                &&& spec_parse_rover(line@, start as int) == Ok::<
                    (int, int, Orientation, int),
                    LineErr,
                >((q.0 as int, q.1 as int, q.2, q.3 as int))
                &&& q.3 <= line@.len()
            },
            Err(e) => spec_parse_rover(line@, start as int) == Err::<
                (int, int, Orientation, int),
                LineErr,
            >(LineErr { col: e.0 as int, kind: e.1 }) && e.0 <= line@.len(),
        }),
{
    let n = line.len();
    let a = skip_ws_exec(line, start);
    if !(a < n && line[a] == '(') {
        return Err((a, ErrorKind::ExpectedOpenParen));
    }
    let b = skip_ws_exec(line, a + 1);
    let (x, e1) = match parse_int_at(line, b) {
        Ok(p) => p,
        Err(e) => {
            return Err(e);
        },
    };
    let c = skip_ws_exec(line, e1);
    if !(c < n && line[c] == ',') {
        return Err((c, ErrorKind::ExpectedComma));
    }
    let d = skip_ws_exec(line, c + 1);
    let (y, e2) = match parse_int_at(line, d) {
        Ok(p) => p,
        Err(e) => {
            return Err(e);
        },
    };
    let f = skip_ws_exec(line, e2);
    if !(f < n && line[f] == ',') {
        return Err((f, ErrorKind::ExpectedComma));
    }
    let g = skip_ws_exec(line, f + 1);
    if !(g < n) {
        return Err((g, ErrorKind::ExpectedOrientation));
    }
    let o = match orientation_exec(line[g]) {
        Some(o) => o,
        None => {
            return Err((g, ErrorKind::ExpectedOrientation));
        },
    };
    let h = skip_ws_exec(line, g + 1);
    if !(h < n && line[h] == ')') {
        return Err((h, ErrorKind::ExpectedCloseParen));
    }
    Ok((x, y, o, h + 1))
}

/// Whether `c` is a command letter.
fn command_char_exec(c: char) -> (r: bool)
    ensures
        r == is_command_char(c),
{
    c == 'L' || c == 'R' || c == 'F'
}

/// Read the run of command letters starting at `start`; it may be empty.
fn parse_commands_at(line: &Vec<char>, start: usize) -> (r: (Vec<Command>, usize))
    requires
        start <= line@.len(),
    ensures
        r.1 == scan_commands(line@, start as int),
        start <= r.1 <= line@.len(),
        r.0@ == commands_in(line@, start as int, r.1 as int),
{
    let n = line.len();
    let mut j = start;
    let mut cmds: Vec<Command> = Vec::new();
    while j < n && command_char_exec(line[j])
        invariant
            start <= j <= n,
            n == line@.len(),
            scan_commands(line@, start as int) == scan_commands(line@, j as int),
            cmds@ == commands_in(line@, start as int, j as int),
        decreases line@.len() - j,
    {
        let cmd = if line[j] == 'L' {
            Command::Left
        } else if line[j] == 'R' {
            Command::Right
        } else {
            Command::Forward
        };
        cmds.push(cmd);
        j = j + 1;
    }
    (cmds, j)
}

/// Parse one rover entry line: a rover descriptor followed by its
/// (possibly empty) command list.
fn parse_entry_line(line: &Vec<char>) -> (r: Result<(Rover, Vec<Command>), (usize, ErrorKind)>)
    ensures
        (match r {
            Ok(en) => spec_parse_entry(line@) == Ok::<(RoverView, Seq<Command>), LineErr>(
                (en.0@, en.1@),
            ) && en.0.wf(),
            Err(e) => spec_parse_entry(line@) == Err::<(RoverView, Seq<Command>), LineErr>(
                LineErr { col: e.0 as int, kind: e.1 },
            ) && e.0 <= line@.len(),
        }),
{
    let (x, y, o, end) = match parse_rover_at(line, 0) {
        Ok(q) => q,
        Err(e) => {
            return Err(e);
        },
    };
    let i = skip_ws_exec(line, end);
    let (cmds, e2) = parse_commands_at(line, i);
    let j = skip_ws_exec(line, e2);
    if j < line.len() {
        return Err((j, ErrorKind::UnknownCommand));
    }
    let rover = Rover::new(Vector::new(x, y), o);
    Ok((rover, cmds))
}

/// Parse the grid descriptor line.
fn parse_grid_line(line: &Vec<char>) -> (r: Result<Grid, (usize, ErrorKind)>)
    ensures
        (match r {
            Ok(g) => spec_parse_grid(line@) == Ok::<GridView, LineErr>(g@),
            Err(e) => spec_parse_grid(line@) == Err::<GridView, LineErr>(
                LineErr { col: e.0 as int, kind: e.1 },
            ) && e.0 <= line@.len(),
        }),
{
    let n = line.len();
    let start = skip_ws_exec(line, 0);
    let (m, e1) = match parse_int_at(line, start) {
        Ok(p) => p,
        Err(e) => {
            return Err(e);
        },
    };
    if !(e1 < n && line[e1] == ' ') {
        return Err((e1, ErrorKind::ExpectedSpace));
    }
    let (gn, e2) = match parse_int_at(line, e1 + 1) {
        Ok(p) => p,
        Err(e) => {
            return Err(e);
        },
    };
    let j = skip_ws_exec(line, e2);
    if j < n {
        return Err((j, ErrorKind::TrailingCharacters));
    }
    Ok(Grid { m, n: gn })
}

/// The characters of a text, in order.
fn text_chars(s: &str) -> (r: Vec<char>)
    ensures
        r@ == s@,
{
    let n = s.unicode_len();
    let mut r: Vec<char> = Vec::new();
    let mut i: usize = 0;
    while i < n
        invariant
            i <= n,
            n == s@.len(),
            r@ == s@.take(i as int),
        decreases n - i,
    {
        let c = s.get_char(i);
        proof {
            assert(s@.take(i as int + 1) =~= s@.take(i as int).push(s@[i as int]));
        }
        r.push(c);
        i = i + 1;
    }
    proof {
        assert(s@.take(n as int) =~= s@);
    }
    r
}

/// Split a text into its lines at every `\n`.
fn split_lines_exec(s: &Vec<char>) -> (r: Vec<Vec<char>>)
    ensures
        r@.map_values(|l: Vec<char>| l@) == split_lines(s@),
        r@.len() >= 1,
{
    let mut lines: Vec<Vec<char>> = Vec::new();
    let mut cur: Vec<char> = Vec::new();
    let mut i: usize = 0;
    proof {
        assert(s@.take(0) =~= Seq::<char>::empty());
        assert(lines@.map_values(|l: Vec<char>| l@).push(cur@) =~= seq![Seq::<char>::empty()]);
    }
    while i < s.len()
        invariant
            i <= s@.len(),
            lines@.map_values(|l: Vec<char>| l@).push(cur@) == split_lines(s@.take(i as int)),
        decreases s@.len() - i,
    {
        let ghost prev_lines = lines@;
        let ghost prev_cur = cur@;
        let c = s[i];
        proof {
            assert(s@.take(i as int + 1).drop_last() =~= s@.take(i as int));
            assert(s@.take(i as int + 1).last() == s@[i as int]);
        }
        if c == '\n' {
            lines.push(cur);
            cur = Vec::new();
            proof {
                assert(lines@.map_values(|l: Vec<char>| l@) =~= prev_lines.map_values(
                    |l: Vec<char>| l@,
                ).push(prev_cur));
                assert(lines@.map_values(|l: Vec<char>| l@).push(cur@) =~= prev_lines.map_values(
                    |l: Vec<char>| l@,
                ).push(prev_cur).push(Seq::<char>::empty()));
            }
        } else {
            cur.push(c);
            proof {
                let prev = prev_lines.map_values(|l: Vec<char>| l@).push(prev_cur);
                assert(lines@.map_values(|l: Vec<char>| l@).push(cur@) =~= prev.update(
                    prev.len() - 1,
                    prev.last().push(s@[i as int]),
                ));
            }
        }
        i = i + 1;
    }
    proof {
        assert(s@.take(s@.len() as int) =~= s@);
    }
    let ghost prev_lines = lines@;
    let ghost prev_cur = cur@;
    lines.push(cur);
    proof {
        assert(lines@.map_values(|l: Vec<char>| l@) =~= prev_lines.map_values(
            |l: Vec<char>| l@,
        ).push(prev_cur));
    }
    lines
}

/// Parse a whole input script: the grid line, then one rover entry per
/// non-blank line. Returns the program, or every syntax error found, in
/// line order, never an empty error list. No partial program is returned
/// on failure, however much of the input is well formed.
pub fn parse_input(input: &str) -> (r: Result<
    (Grid, Vec<(Rover, Vec<Command>)>),
    Vec<ParseError>,
>)
    ensures
        (match r {
            Ok(p) => {
                &&& spec_parse(input@) == Ok::<ProgramView, Seq<ErrorView>>(
                    (ProgramView {
                        grid: p.0@,
                        entries: p.1@.map_values(|en: (Rover, Vec<Command>)| (en.0@, en.1@)),
                    }),
                )
                &&& forall|k: int| 0 <= k < p.1@.len() ==> (#[trigger] p.1@[k]).0.wf()
            },
            Err(es) => {
                &&& spec_parse(input@) == Err::<ProgramView, Seq<ErrorView>>(
                    es@.map_values(|e: ParseError| e@),
                )
                &&& es@.len() >= 1
            },
        }),
{
    let chars = text_chars(input);
    let lines = split_lines_exec(&chars);
    let ghost ls = split_lines(input@);
    let ghost rest = ls.drop_first();
    let ghost gerrs = (match spec_parse_grid(ls[0]) {
        Ok(_) => Seq::<ErrorView>::empty(),
        Err(e) => seq![ErrorView { line: 1, col: e.col, kind: e.kind }],
    });
    let mut errors: Vec<ParseError> = Vec::new();
    let grid_opt: Option<Grid> = match parse_grid_line(&lines[0]) {
        Ok(g) => Some(g),
        Err((c, k)) => {
            errors.push(ParseError { line: 1, col: c, kind: k });
            None
        },
    };
    proof {
        assert(errors@.map_values(|e: ParseError| e@) =~= gerrs);
        assert(rest.take(0) =~= Seq::<Seq<char>>::empty());
    }
    let mut entries: Vec<(Rover, Vec<Command>)> = Vec::new();
    let mut li: usize = 1;
    while li < lines.len()
        invariant
            1 <= li <= lines@.len(),
            lines@.map_values(|l: Vec<char>| l@) == ls,
            rest == ls.drop_first(),
            gerrs == (match spec_parse_grid(ls[0]) {
                Ok(_) => Seq::<ErrorView>::empty(),
                Err(e) => seq![ErrorView { line: 1, col: e.col, kind: e.kind }],
            }),
            (match grid_opt {
                Some(g) => spec_parse_grid(ls[0]) == Ok::<GridView, LineErr>(g@),
                None => gerrs.len() == 1,
            }),
            entries@.map_values(|en: (Rover, Vec<Command>)| (en.0@, en.1@)) == entries_of(
                rest.take(li as int - 1),
            ),
            errors@.map_values(|e: ParseError| e@) == gerrs + entry_errors(
                rest.take(li as int - 1),
                2,
            ),
            forall|k: int| 0 <= k < entries@.len() ==> (#[trigger] entries@[k]).0.wf(),
        decreases lines@.len() - li,
    {
        let ghost prev_entries = entries@;
        let ghost prev_errors = errors@;
        proof {
            assert(rest[li as int - 1] == ls[li as int]);
            assert(rest.take(li as int).drop_last() =~= rest.take(li as int - 1));
            assert(rest.take(li as int).last() == rest[li as int - 1]);
            assert(lines@.map_values(|l: Vec<char>| l@)[li as int] == lines@[li as int]@);
        }
        let line = &lines[li];
        let blank_end = skip_ws_exec(line, 0);
        if blank_end < line.len() {
            match parse_entry_line(line) {
                Ok(en) => {
                    entries.push(en);
                    proof {
                        assert(entries@.map_values(|en: (Rover, Vec<Command>)| (en.0@, en.1@))
                            =~= prev_entries.map_values(
                            |en: (Rover, Vec<Command>)| (en.0@, en.1@),
                        ).push((entries@.last().0@, entries@.last().1@)));
                    }
                },
                Err((c, k)) => {
                    errors.push(ParseError { line: li + 1, col: c, kind: k });
                    proof {
                        assert(errors@.map_values(|e: ParseError| e@) =~= prev_errors.map_values(
                            |e: ParseError| e@,
                        ).push(errors@.last()@));
                        assert(2 + rest.take(li as int).len() - 1 == li + 1);
                    }
                },
            }
        }
        li = li + 1;
    }
    proof {
        assert(rest.take(lines@.len() as int - 1) =~= rest);
    }
    if errors.len() == 0 {
        let grid = match grid_opt {
            Some(g) => g,
            None => {
                proof {
                    assert(gerrs.len() + entry_errors(rest, 2).len() == 0);
                }
                vstd::pervasive::unreached()
            },
        };
        proof {
            assert(gerrs + entry_errors(rest, 2) =~= Seq::<ErrorView>::empty());
            assert(entry_errors(rest, 2).len() == 0);
        }
        Ok((grid, entries))
    } else {
        proof {
            if spec_parse_grid(ls[0]) is Ok {
                assert(gerrs + entry_errors(rest, 2) =~= entry_errors(rest, 2));
            } else {
                let e = spec_parse_grid(ls[0])->Err_0;
                assert(gerrs + entry_errors(rest, 2) =~= seq![
                    ErrorView { line: 1, col: e.col, kind: e.kind },
                ] + entry_errors(rest, 2));
            }
        }
        Err(errors)
    }
}

/// Parse a grid descriptor standing alone, as on the first input line.
pub fn parse_grid(text: &str) -> (r: Result<Grid, ParseError>)
    ensures
        (match r {
            Ok(g) => spec_parse_grid(text@) == Ok::<GridView, LineErr>(g@),
            Err(e) => spec_parse_grid(text@) == Err::<GridView, LineErr>(
                (LineErr { col: e@.col, kind: e@.kind }),
            ) && e@.line == 1,
        }),
{
    let chars = text_chars(text);
    match parse_grid_line(&chars) {
        Ok(g) => Ok(g),
        Err((c, k)) => Err(ParseError { line: 1, col: c, kind: k }),
    }
}

/// Parse a rover descriptor standing alone, with nothing after it.
pub fn parse_rover(text: &str) -> (r: Result<Rover, ParseError>)
    ensures
        (match r {
            Ok(rov) => spec_parse_rover_only(text@) == Ok::<RoverView, LineErr>(rov@) && rov.wf(),
            Err(e) => spec_parse_rover_only(text@) == Err::<RoverView, LineErr>(
                (LineErr { col: e@.col, kind: e@.kind }),
            ) && e@.line == 1,
        }),
{
    let chars = text_chars(text);
    let (x, y, o, end) = match parse_rover_at(&chars, 0) {
        Ok(q) => q,
        Err((c, k)) => {
            return Err(ParseError { line: 1, col: c, kind: k });
        },
    };
    let j = skip_ws_exec(&chars, end);
    if j < chars.len() {
        return Err(ParseError { line: 1, col: j, kind: ErrorKind::TrailingCharacters });
    }
    Ok(Rover::new(Vector::new(x, y), o))
}

/// Parse a command list standing alone, as written after a rover
/// descriptor: a run of `L`, `R`, `F` letters with no separators.
pub fn parse_commands(text: &str) -> (r: Result<Vec<Command>, ParseError>)
    ensures
        (match r {
            Ok(cs) => spec_parse_commands(text@) == Ok::<Seq<Command>, LineErr>(cs@),
            Err(e) => spec_parse_commands(text@) == Err::<Seq<Command>, LineErr>(
                (LineErr { col: e@.col, kind: e@.kind }),
            ) && e@.line == 1,
        }),
{
    let chars = text_chars(text);
    let i = skip_ws_exec(&chars, 0);
    let (cmds, e) = parse_commands_at(&chars, i);
    let j = skip_ws_exec(&chars, e);
    if j < chars.len() {
        return Err(ParseError { line: 1, col: j, kind: ErrorKind::UnknownCommand });
    }
    Ok(cmds)
}

} // verus!
