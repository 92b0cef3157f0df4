//! Errors of the query executors.
use crate::interval::IntervalUnit;
use crate::text::{decimal_text, join};
use vstd::prelude::*;

verus! {

/// The class of an error, with its text.
#[derive(Debug, PartialEq, Eq)]
pub enum ErrorCode {
    InternalError(String),
    UnknownError(String),
}

impl ErrorCode {
    pub open spec fn is_internal(self, text: Seq<char>) -> bool {
        self matches ErrorCode::InternalError(t) && t@ == text
    }

    pub open spec fn is_unknown(self, text: Seq<char>) -> bool {
        self matches ErrorCode::UnknownError(t) && t@ == text
    }
}

/// Why an executor could not be built, or why its stream ended early.
#[derive(Debug, PartialEq, Eq)]
pub enum RwError {
    /// The window size is not a positive whole number of slides.
    WindowNotDivisible { window_size: IntervalUnit, window_slide: IntervalUnit },
    /// The window size minus the slide overflows.
    WindowNotSubtractable { window_size: IntervalUnit, window_slide: IntervalUnit },
    /// A multiple of the slide that window number `factor` needs overflows.
    SlideNotMultipliable { window_slide: IntervalUnit, factor: usize },
    /// A chunk was to be made from no columns at all.
    NoColumns,
    /// Columns of one chunk differ in length.
    UnequalColumns,
    /// The plan node holds another kind of node than the executor was asked for.
    NodeBodyMismatch,
    /// The plan node of a hop window has no child.
    MissingChild,
    /// The plan node of a projection does not have exactly one child.
    ChildCount { actual: usize },
    /// A field that the plan node must carry is absent.
    FieldNotFound(String),
    /// An error of the surrounding engine, passed on as it came.
    Engine(String),
}

impl RwError {
    /// The two errors are the same, up to how the text in them is stored.
    pub open spec fn same(self, other: Self) -> bool {
        match (self, other) {
            (RwError::FieldNotFound(a), RwError::FieldNotFound(b)) => a@ == b@,
            _ => self == other,
        }
    }

    /// `code` is how the executors class and word the error, given how the engine writes the two
    /// intervals of the window. There is none for an error that the engine words: one of its own,
    /// or one on a plan node or on columns that it checks.
    pub open spec fn has_code(
        self,
        window_size: Seq<char>,
        window_slide: Seq<char>,
        code: Option<ErrorCode>,
    ) -> bool {
        match self {
            RwError::WindowNotDivisible { .. } => code matches Some(c) && c.is_unknown(
                "window_size "@ + window_size + " cannot be divided by window_slide "@
                    + window_slide,
            ),
            RwError::WindowNotSubtractable { .. } => code matches Some(c) && c.is_unknown(
                "window_size "@ + window_size + " cannot be subtracted by window_slide "@
                    + window_slide,
            ),
            RwError::SlideNotMultipliable { factor, .. } => code matches Some(c) && c.is_unknown(
                "window_slide "@ + window_slide + " cannot be multiplied by "@
                    + crate::text::decimal(factor as nat),
            ),
            RwError::MissingChild => code matches Some(c) && c.is_internal(
                "Child interpreting error"@,
            ),
            _ => code is None,
        }
    }

    /// The class and the text of the error, given how the engine writes the two intervals of the
    /// window. There is none for an error that the engine words.
    pub fn code(&self, window_size: &str, window_slide: &str) -> (r: Option<ErrorCode>)
        ensures
            self.has_code(window_size@, window_slide@, r),
    {
        match self {
            RwError::WindowNotDivisible { .. } => Some(
                ErrorCode::UnknownError(
                    join(
                        "window_size ",
                        window_size,
                        " cannot be divided by window_slide ",
                        window_slide,
                    ),
                ),
            ),
            RwError::WindowNotSubtractable { .. } => Some(
                ErrorCode::UnknownError(
                    join(
                        "window_size ",
                        window_size,
                        " cannot be subtracted by window_slide ",
                        window_slide,
                    ),
                ),
            ),
            RwError::SlideNotMultipliable { factor, .. } => {
                let factor_text: String = decimal_text(*factor);
                Some(
                    ErrorCode::UnknownError(
                        join(
                            "window_slide ",
                            window_slide,
                            " cannot be multiplied by ",
                            factor_text.as_str(),
                        ),
                    ),
                )
            },
            RwError::MissingChild => Some(
                ErrorCode::InternalError("Child interpreting error".to_owned()),
            ),
            _ => None,
        }
    }
}

/// An error on the window is of the unknown class, and its text names the intervals as the engine
/// writes them, and the number of the window whose distance overflows. So different intervals or
/// numbers have different texts, as far as they are written differently.
pub proof fn law_window_errors_name_their_values(
    error: RwError,
    window_size: Seq<char>,
    window_slide: Seq<char>,
    code: Option<ErrorCode>,
)
    requires
        error.has_code(window_size, window_slide, code),
    ensures
        error is WindowNotDivisible ==> code is Some && code->Some_0 is UnknownError
            && code->Some_0->UnknownError_0@ == "window_size "@ + window_size
            + " cannot be divided by window_slide "@ + window_slide,
        error is WindowNotSubtractable ==> code is Some && code->Some_0 is UnknownError
            && code->Some_0->UnknownError_0@ == "window_size "@ + window_size
            + " cannot be subtracted by window_slide "@ + window_slide,
        error is SlideNotMultipliable ==> code is Some && code->Some_0 is UnknownError && exists|
            number: Seq<char>,
        |
            {
                &&& code->Some_0->UnknownError_0@ == "window_slide "@ + window_slide
                    + " cannot be multiplied by "@ + number
                &&& #[trigger] crate::text::denoted(number) == error->factor
            },
        error is MissingChild ==> code is Some && code->Some_0 is InternalError
            && code->Some_0->InternalError_0@ == "Child interpreting error"@,
        code is Some ==> error is WindowNotDivisible || error is WindowNotSubtractable || error
            is SlideNotMultipliable || error is MissingChild,
{
    if let RwError::SlideNotMultipliable { factor, .. } = error {
        crate::text::law_decimal_denotes_its_number(factor as nat);
        assert(crate::text::denoted(crate::text::decimal(factor as nat)) == factor);
    }
}

} // verus!
