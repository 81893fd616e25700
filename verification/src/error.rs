use crate::number::{decimal_text, push_decimal, IntErrorKind};
use vstd::prelude::*;
use vstd::string::StringExecFns;

verus! {

/// What can go wrong in reading a report or laying out a chart.
#[derive(Debug, PartialEq, Eq)]
pub enum Error {
    /// A column of a data row lacks what must stand in it: the row's index
    /// among the data rows, the column's index, and the column's text.
    InvalidResultColumn(usize, usize, String),
    /// A column of a data row is no 32-bit integer: the row's index among the
    /// data rows, the column's index, the column's text, and the reason.
    ParseIntFailed(usize, usize, String, IntErrorKind),
    /// A chart was asked for with no run to show.
    ResultSliceEmpty,
    /// A run lacks the scene of this name where another run has it.
    SceneMissing(String),
    /// The text names no metric.
    InvalidMetric(String),
}

/// The mathematical value of an [`Error`].
pub enum ErrorView {
    InvalidResultColumn(nat, nat, Seq<char>),
    ParseIntFailed(nat, nat, Seq<char>, IntErrorKind),
    ResultSliceEmpty,
    SceneMissing(Seq<char>),
    InvalidMetric(Seq<char>),
}

impl View for Error {
    type V = ErrorView;

    open spec fn view(&self) -> ErrorView {
        match self {
            Error::InvalidResultColumn(row, col, text) => ErrorView::InvalidResultColumn(
                *row as nat,
                *col as nat,
                text@,
            ),
            Error::ParseIntFailed(row, col, text, kind) => ErrorView::ParseIntFailed(
                *row as nat,
                *col as nat,
                text@,
                *kind,
            ),
            Error::ResultSliceEmpty => ErrorView::ResultSliceEmpty,
            Error::SceneMissing(name) => ErrorView::SceneMissing(name@),
            Error::InvalidMetric(text) => ErrorView::InvalidMetric(text@),
        }
    }
}

impl ErrorView {
    /// The words of [`Error::message`].
    pub open spec fn message_text(self) -> Seq<char> {
        match self {
            ErrorView::InvalidResultColumn(row, col, text) => "Invalid column at line "@
                + decimal_text(row as int) + ", col "@ + decimal_text(col as int) + ": '"@ + text
                + "'"@,
            ErrorView::ParseIntFailed(row, col, text, kind) => "Parse failed for column at line "@
                + decimal_text(row as int) + ", col "@ + decimal_text(col as int) + ": '"@ + text
                + "' - "@ + kind.reason_text(),
            ErrorView::ResultSliceEmpty => "Result slice is empty"@,
            ErrorView::SceneMissing(name) => "Failed to find scene '"@ + name + "'"@,
            ErrorView::InvalidMetric(text) => "Invalid Metric "@ + text,
        }
    }
}

impl Error {
    /// Says in words what went wrong.
    pub fn message(&self) -> (text: String)
        ensures
            text@ == self@.message_text(),
    {
        match self {
            Error::InvalidResultColumn(row, col, column) => {
                let mut out = "Invalid column at line ".to_owned();
                push_decimal(&mut out, *row as u64);
                out.append(", col ");
                push_decimal(&mut out, *col as u64);
                out.append(": '");
                out.append(column.as_str());
                out.append("'");
                out
            },
            Error::ParseIntFailed(row, col, column, kind) => {
                let mut out = "Parse failed for column at line ".to_owned();
                push_decimal(&mut out, *row as u64);
                out.append(", col ");
                push_decimal(&mut out, *col as u64);
                out.append(": '");
                out.append(column.as_str());
                out.append("' - ");
                out.append(kind.reason());
                out
            },
            Error::ResultSliceEmpty => "Result slice is empty".to_owned(),
            Error::SceneMissing(name) => {
                let mut out = "Failed to find scene '".to_owned();
                out.append(name.as_str());
                out.append("'");
                out
            },
            Error::InvalidMetric(token) => {
                let mut out = "Invalid Metric ".to_owned();
                out.append(token.as_str());
                out
            },
        }
    }
}

} // verus!
