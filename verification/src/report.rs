use vstd::prelude::*;
use vstd::string::StringExecFns;

verus! {

/// The character that writes the digit `d`, for `d` from 0 to 9.
pub open spec fn digit_char(d: int) -> char {
    if d == 0 {
        '0'
    } else if d == 1 {
        '1'
    } else if d == 2 {
        '2'
    } else if d == 3 {
        '3'
    } else if d == 4 {
        '4'
    } else if d == 5 {
        '5'
    } else if d == 6 {
        '6'
    } else if d == 7 {
        '7'
    } else if d == 8 {
        '8'
    } else {
        '9'
    }
}

/// A natural number in decimal, without leading zeros.
pub open spec fn decimal_nat(n: nat) -> Seq<char>
    decreases n,
{
    if n < 10 {
        seq![digit_char(n as int)]
    } else {
        decimal_nat(n / 10).push(digit_char((n % 10) as int))
    }
}

/// An integer in decimal, with a minus sign in front if it is negative.
pub open spec fn decimal(n: int) -> Seq<char> {
    if n < 0 {
        seq!['-'] + decimal_nat((-n) as nat)
    } else {
        decimal_nat(n as nat)
    }
}

/// The line that reports the counts of one file: the path, a tab, the number
/// of lines and the word `lines`, a tab, the number of words and `words.`
pub open spec fn report_text(path: Seq<char>, lines: int, words: int) -> Seq<char> {
    path + "\t"@ + decimal(lines) + " lines\t"@ + decimal(words) + " words."@
}

/// The diagnostic for a file that could not be counted: it names the path
/// and gives the cause.
pub open spec fn abort_text(path: Seq<char>, why: Seq<char>) -> Seq<char> {
    "Error - "@ + path + ": "@ + why
}

/// What is to be done with the outcome of one file, as characters.
pub enum ReportView {
    Line(Seq<char>),
    Abort(Seq<char>),
}

/// What is to be done with the outcome of one file.
#[derive(Debug)]
pub enum Report {
    /// Write this line to the output.
    Line(String),
    /// Give up the whole run with this diagnostic.
    Abort(String),
}

impl View for Report {
    type V = ReportView;

    open spec fn view(&self) -> ReportView {
        match *self {
            Report::Line(text) => ReportView::Line(text@),
            Report::Abort(text) => ReportView::Abort(text@),
        }
    }
}

fn digit_str(d: u32) -> (s: &'static str)
    requires
        d < 10,
    ensures
        s@ == seq![digit_char(d as int)],
{
    proof {
        reveal_strlit("0");
        reveal_strlit("1");
        reveal_strlit("2");
        reveal_strlit("3");
        reveal_strlit("4");
        reveal_strlit("5");
        reveal_strlit("6");
        reveal_strlit("7");
        reveal_strlit("8");
        reveal_strlit("9");
    }
    let s = if d == 0 {
        "0"
    } else if d == 1 {
        "1"
    } else if d == 2 {
        "2"
    } else if d == 3 {
        "3"
    } else if d == 4 {
        "4"
    } else if d == 5 {
        "5"
    } else if d == 6 {
        "6"
    } else if d == 7 {
        "7"
    } else if d == 8 {
        "8"
    } else {
        "9"
    };
    assert(s@ =~= seq![digit_char(d as int)]);
    s
}

fn push_decimal_nat(out: &mut String, n: u32)
    ensures
        final(out)@ == old(out)@ + decimal_nat(n as nat),
    decreases n,
{
    if n >= 10 {
        push_decimal_nat(out, n / 10);
    }
    out.append(digit_str(n % 10));
    assert(out@ =~= old(out)@ + decimal_nat(n as nat));
}

fn push_decimal(out: &mut String, n: i32)
    ensures
        final(out)@ == old(out)@ + decimal(n as int),
{
    if n < 0 {
        let wide: i64 = n as i64;
        let size: u32 = (-wide) as u32;
        proof {
            reveal_strlit("-");
        }
        out.append("-");
        push_decimal_nat(out, size);
        assert(out@ =~= old(out)@ + decimal(n as int));
    } else {
        push_decimal_nat(out, n as u32);
    }
}

/// Writes the line that reports the counts of the file at `path`.
pub fn report_line(path: &str, lines: i32, words: i32) -> (line: String)
    ensures
        line@ == report_text(path@, lines as int, words as int),
{
    let mut line = path.to_owned();
    line.append("\t");
    push_decimal(&mut line, lines);
    line.append(" lines\t");
    push_decimal(&mut line, words);
    line.append(" words.");
    line
}

/// Decides what is to be done with the outcome of counting the file at
/// `path`: counts are reported in a line of their own; a failure gives up the
/// whole run, with a diagnostic that names the path and the cause.
pub fn report(path: &str, outcome: &Result<(i32, i32), String>) -> (what: Report)
    ensures
        what@ == match *outcome {
            Ok(counts) => ReportView::Line(report_text(path@, counts.0 as int, counts.1 as int)),
            Err(why) => ReportView::Abort(abort_text(path@, why@)),
        },
{
    match outcome {
        Ok(counts) => Report::Line(report_line(path, counts.0, counts.1)),
        Err(why) => {
            let mut text = "Error - ".to_owned();
            text.append(path);
            text.append(": ");
            text.append(why.as_str());
            Report::Abort(text)
        },
    }
}

} // verus!
