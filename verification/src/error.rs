//! The errors of decoding a file.

use vstd::prelude::*;
use vstd::string::StringExecFns;

verus! {

/// Why a file could not be decoded into records.
#[derive(Debug, PartialEq, Eq)]
pub enum DecodeError {
    /// A line of line-delimited JSON could not be read or parsed.
    JsonLines { cause: String },
    /// The buffer is no JSON document.
    Json { cause: String },
    /// The JSON document is no array.
    NotAnArray,
    /// The header of a CSV table could not be read.
    CsvHeader { cause: String },
    /// The file's name does not end in the extension of a supported format.
    UnsupportedFormat,
}

impl DecodeError {
    /// The message of the error, as a model.
    pub open spec fn message_text(self) -> Seq<char> {
        match self {
            DecodeError::JsonLines { cause } => "error parsing jsonlines: "@ + cause@,
            DecodeError::Json { cause } => cause@,
            DecodeError::NotAnArray => "the file must contain an array of json objects"@,
            DecodeError::CsvHeader { cause } => cause@,
            DecodeError::UnsupportedFormat => "Attempting to process file as unstructured even though requested as structured"@,
        }
    }

    /// The message of the error.
    pub fn message(&self) -> (r: String)
        ensures
            r@ == self.message_text(),
    {
        match self {
            DecodeError::JsonLines { cause } => {
                String::from_str("error parsing jsonlines: ").concat(cause.as_str())
            },
            DecodeError::Json { cause } => cause.clone(),
            DecodeError::NotAnArray => String::from_str(
                "the file must contain an array of json objects",
            ),
            DecodeError::CsvHeader { cause } => cause.clone(),
            DecodeError::UnsupportedFormat => String::from_str(
                "Attempting to process file as unstructured even though requested as structured",
            ),
        }
    }
}

/// Why a datapoint could not be projected into a record of the text index.
#[derive(Debug, Clone, Copy, PartialEq, Eq, Structural)]
pub enum ProjectionError {
    /// The payload is no object whose values are all node inputs.
    DataShape,
    /// The payload has no entry under the name of the indexed field.
    MissingField,
}

impl ProjectionError {
    /// The message of the error, as a model.
    pub open spec fn message_text(self) -> Seq<char> {
        match self {
            ProjectionError::DataShape => "the data is no mapping from names to node inputs"@,
            ProjectionError::MissingField => "the data has no entry for the indexed field"@,
        }
    }

    /// The message of the error.
    pub fn message(&self) -> (r: String)
        ensures
            r@ == self.message_text(),
    {
        match self {
            ProjectionError::DataShape => String::from_str(
                "the data is no mapping from names to node inputs",
            ),
            ProjectionError::MissingField => String::from_str(
                "the data has no entry for the indexed field",
            ),
        }
    }
}

} // verus!
