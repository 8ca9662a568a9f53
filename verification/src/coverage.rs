//! Coverage data: flight information regions, stations, positions, and the
//! network that decides which position covers which station.
pub mod assembly;
pub mod fir;
pub mod geo;
pub mod network;
pub mod position;
pub mod profile_raw;
pub mod station;

use crate::text::string_concat;
use vstd::prelude::*;

verus! {

/// A value of the coverage data that can check itself.
pub trait Validator {
    /// Checks the value, and names the first problem found.
    fn validate(&self) -> (r: Result<(), CoverageError>);
}

/// Any failure while loading or checking coverage data.
#[derive(Debug)]
pub enum CoverageError {
    Validation(ValidationError),
    Io(IoError),
    Structure(StructureError),
}

/// A value that breaks a rule of the coverage data format.
#[derive(Debug)]
pub enum ValidationError {
    MissingField(String),
    Empty { field: String },
    InvalidFormat { field: String, value: String, reason: String },
    InvalidValue { field: String, value: String, reason: String },
    OutOfRange { field: String, value: String, min: String, max: Option<String> },
    MissingReference { field: String, ref_id: String },
    MutuallyExclusive { fields: Vec<String> },
    Custom(String),
}

/// A file or directory that could not be read or parsed.
#[derive(Debug)]
pub enum IoError {
    Read { path: String, reason: String },
    Parse { path: String, reason: String },
    ReadEntry(String),
}

/// Coverage data whose parts do not fit together.
#[derive(Debug)]
pub enum StructureError {
    Duplicate { entity: String, id: String },
    EmptyCoverage(String),
    Load { entity: String, id: String, reason: String },
}

/// The mathematical content of a [`ValidationError`].
pub enum ValidationErrorView {
    MissingField(Seq<char>),
    Empty { field: Seq<char> },
    InvalidFormat { field: Seq<char>, value: Seq<char>, reason: Seq<char> },
    InvalidValue { field: Seq<char>, value: Seq<char>, reason: Seq<char> },
    OutOfRange { field: Seq<char>, value: Seq<char>, min: Seq<char>, max: Option<Seq<char>> },
    MissingReference { field: Seq<char>, ref_id: Seq<char> },
    MutuallyExclusive { fields: Seq<Seq<char>> },
    Custom(Seq<char>),
}

/// The mathematical content of an [`IoError`].
pub enum IoErrorView {
    Read { path: Seq<char>, reason: Seq<char> },
    Parse { path: Seq<char>, reason: Seq<char> },
    ReadEntry(Seq<char>),
}

/// The mathematical content of a [`StructureError`].
pub enum StructureErrorView {
    Duplicate { entity: Seq<char>, id: Seq<char> },
    EmptyCoverage(Seq<char>),
    Load { entity: Seq<char>, id: Seq<char>, reason: Seq<char> },
}

/// The mathematical content of a [`CoverageError`].
pub enum CoverageErrorView {
    Validation(ValidationErrorView),
    Io(IoErrorView),
    Structure(StructureErrorView),
}

/// The texts of a list of strings.
pub open spec fn strings_view(v: Seq<String>) -> Seq<Seq<char>> {
    v.map_values(|s: String| s@)
}

impl View for ValidationError {
    type V = ValidationErrorView;

    open spec fn view(&self) -> ValidationErrorView {
        match self {
            ValidationError::MissingField(f) => ValidationErrorView::MissingField(f@),
            ValidationError::Empty { field } => ValidationErrorView::Empty { field: field@ },
            ValidationError::InvalidFormat { field, value, reason } => ValidationErrorView::InvalidFormat {
                field: field@,
                value: value@,
                reason: reason@,
            },
            ValidationError::InvalidValue { field, value, reason } => ValidationErrorView::InvalidValue {
                field: field@,
                value: value@,
                reason: reason@,
            },
            ValidationError::OutOfRange { field, value, min, max } => ValidationErrorView::OutOfRange {
                field: field@,
                value: value@,
                min: min@,
                max: match max {
                    Some(m) => Some(m@),
                    None => None,
                },
            },
            ValidationError::MissingReference { field, ref_id } => ValidationErrorView::MissingReference {
                field: field@,
                ref_id: ref_id@,
            },
            ValidationError::MutuallyExclusive { fields } => ValidationErrorView::MutuallyExclusive {
                fields: strings_view(fields@),
            },
            ValidationError::Custom(c) => ValidationErrorView::Custom(c@),
        }
    }
}

impl View for IoError {
    type V = IoErrorView;

    open spec fn view(&self) -> IoErrorView {
        match self {
            IoError::Read { path, reason } => IoErrorView::Read { path: path@, reason: reason@ },
            IoError::Parse { path, reason } => IoErrorView::Parse { path: path@, reason: reason@ },
            IoError::ReadEntry(e) => IoErrorView::ReadEntry(e@),
        }
    }
}

impl View for StructureError {
    type V = StructureErrorView;

    open spec fn view(&self) -> StructureErrorView {
        match self {
            StructureError::Duplicate { entity, id } => StructureErrorView::Duplicate {
                entity: entity@,
                id: id@,
            },
            StructureError::EmptyCoverage(s) => StructureErrorView::EmptyCoverage(s@),
            StructureError::Load { entity, id, reason } => StructureErrorView::Load {
                entity: entity@,
                id: id@,
                reason: reason@,
            },
        }
    }
}

impl View for CoverageError {
    type V = CoverageErrorView;

    open spec fn view(&self) -> CoverageErrorView {
        match self {
            CoverageError::Validation(e) => CoverageErrorView::Validation(e@),
            CoverageError::Io(e) => CoverageErrorView::Io(e@),
            CoverageError::Structure(e) => CoverageErrorView::Structure(e@),
        }
    }
}

/// The human-readable text of the validation failures that checks of single
/// entities report.
pub open spec fn validation_message(e: ValidationErrorView) -> Seq<char> {
    match e {
        ValidationErrorView::MissingField(f) => "missing field `"@ + f + "`"@,
        ValidationErrorView::Empty { field } => "`"@ + field + "` must not be empty"@,
        ValidationErrorView::InvalidFormat { field, reason, .. } => "invalid format for `"@ + field
            + "`: "@ + reason,
        ValidationErrorView::InvalidValue { field, reason, .. } => "invalid value for `"@ + field
            + "`: "@ + reason,
        ValidationErrorView::OutOfRange { field, min, .. } => "`"@ + field
            + "` is out of range, minimum "@ + min,
        ValidationErrorView::MissingReference { field, ref_id } => "`"@ + field
            + "` references unknown `"@ + ref_id + "`"@,
        ValidationErrorView::MutuallyExclusive { .. } => "fields are mutually exclusive"@,
        ValidationErrorView::Custom(c) => c,
    }
}

impl ValidationError {
    /// The human-readable text of the failure.
    pub fn message(&self) -> (r: String)
        ensures
            r@ == validation_message(self@),
    {
        match self {
            ValidationError::MissingField(f) => {
                let s = string_concat("missing field `".to_owned(), f.as_str());
                string_concat(s, "`")
            },
            ValidationError::Empty { field } => {
                let s = string_concat("`".to_owned(), field.as_str());
                string_concat(s, "` must not be empty")
            },
            ValidationError::InvalidFormat { field, reason, .. } => {
                let s = string_concat("invalid format for `".to_owned(), field.as_str());
                let s = string_concat(s, "`: ");
                string_concat(s, reason.as_str())
            },
            ValidationError::InvalidValue { field, reason, .. } => {
                let s = string_concat("invalid value for `".to_owned(), field.as_str());
                let s = string_concat(s, "`: ");
                string_concat(s, reason.as_str())
            },
            ValidationError::OutOfRange { field, min, .. } => {
                let s = string_concat("`".to_owned(), field.as_str());
                let s = string_concat(s, "` is out of range, minimum ");
                string_concat(s, min.as_str())
            },
            ValidationError::MissingReference { field, ref_id } => {
                let s = string_concat("`".to_owned(), field.as_str());
                let s = string_concat(s, "` references unknown `");
                let s = string_concat(s, ref_id.as_str());
                string_concat(s, "`")
            },
            ValidationError::MutuallyExclusive { .. } => "fields are mutually exclusive".to_owned(),
            ValidationError::Custom(c) => c.clone(),
        }
    }
}

/// The human-readable text of a coverage error.
pub open spec fn coverage_message(e: CoverageErrorView) -> Seq<char> {
    match e {
        CoverageErrorView::Validation(v) => validation_message(v),
        CoverageErrorView::Io(IoErrorView::Read { path, reason }) => "failed to read `"@ + path
            + "`: "@ + reason,
        CoverageErrorView::Io(IoErrorView::Parse { path, reason }) => "failed to parse `"@ + path
            + "`: "@ + reason,
        CoverageErrorView::Io(IoErrorView::ReadEntry(e)) => "failed to read directory entry: "@
            + e,
        CoverageErrorView::Structure(StructureErrorView::Duplicate { entity, id }) => "duplicate "@
            + entity + " `"@ + id + "`"@,
        CoverageErrorView::Structure(StructureErrorView::EmptyCoverage(s)) => "station `"@ + s
            + "` has no coverage"@,
        CoverageErrorView::Structure(StructureErrorView::Load { entity, id, reason }) =>
            "failed to load "@ + entity + " from `"@ + id + "`: "@ + reason,
    }
}

impl CoverageError {
    /// The human-readable text of the error.
    pub fn message(&self) -> (r: String)
        ensures
            r@ == coverage_message(self@),
    {
        match self {
            CoverageError::Validation(v) => v.message(),
            CoverageError::Io(IoError::Read { path, reason }) => {
                let s = string_concat("failed to read `".to_owned(), path.as_str());
                let s = string_concat(s, "`: ");
                string_concat(s, reason.as_str())
            },
            CoverageError::Io(IoError::Parse { path, reason }) => {
                let s = string_concat("failed to parse `".to_owned(), path.as_str());
                let s = string_concat(s, "`: ");
                string_concat(s, reason.as_str())
            },
            CoverageError::Io(IoError::ReadEntry(e)) => {
                string_concat("failed to read directory entry: ".to_owned(), e.as_str())
            },
            CoverageError::Structure(StructureError::Duplicate { entity, id }) => {
                let s = string_concat("duplicate ".to_owned(), entity.as_str());
                let s = string_concat(s, " `");
                let s = string_concat(s, id.as_str());
                string_concat(s, "`")
            },
            CoverageError::Structure(StructureError::EmptyCoverage(st)) => {
                let s = string_concat("station `".to_owned(), st.as_str());
                string_concat(s, "` has no coverage")
            },
            CoverageError::Structure(StructureError::Load { entity, id, reason }) => {
                let s = string_concat("failed to load ".to_owned(), entity.as_str());
                let s = string_concat(s, " from `");
                let s = string_concat(s, id.as_str());
                let s = string_concat(s, "`: ");
                string_concat(s, reason.as_str())
            },
        }
    }
}

} // verus!
