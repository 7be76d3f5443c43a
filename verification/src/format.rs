//! The format of a file, told from its name.

use vstd::prelude::*;
use vstd::string::StrSliceExecFns;

use crate::text::str_equal;

verus! {

/// A format that records are read from.
#[derive(Debug, Clone, Copy, PartialEq, Eq, Structural)]
pub enum FileFormat {
    /// Line-delimited JSON: one value on each line.
    JsonLines,
    /// One JSON document, an array of values.
    Json,
    /// A delimited-text table whose first row names the columns.
    Csv,
}

/// The index of the last `.` among the first `end` characters of `name`.
pub open spec fn last_dot_before(name: Seq<char>, end: int) -> Option<int>
    decreases end,
{
    if end <= 0 {
        None
    } else if name[end - 1] == '.' {
        Some(end - 1)
    } else {
        last_dot_before(name, end - 1)
    }
}

/// The final extension of a file name: what follows its last `.`. A name
/// without a `.` has none.
pub open spec fn extension_of(name: Seq<char>) -> Option<Seq<char>> {
    match last_dot_before(name, name.len() as int) {
        Some(dot) => Some(name.subrange(dot + 1, name.len() as int)),
        None => None,
    }
}

/// The format that a file name's final extension stands for. The extension
/// is taken as it is written: case matters.
pub open spec fn format_of(name: Seq<char>) -> Option<FileFormat> {
    match extension_of(name) {
        Some(extension) => if extension == "jsonl"@ {
            Some(FileFormat::JsonLines)
        } else if extension == "json"@ {
            Some(FileFormat::Json)
        } else if extension == "csv"@ {
            Some(FileFormat::Csv)
        } else {
            None
        },
        None => None,
    }
}

/// `last_dot_before` finds a `.` with no `.` after it, and finds none only
/// where there is none.
pub proof fn lemma_last_dot(name: Seq<char>, end: int)
    requires
        0 <= end <= name.len(),
    ensures
        match last_dot_before(name, end) {
            Some(dot) => {
                &&& 0 <= dot < end
                &&& name[dot] == '.'
                &&& forall|j: int| dot < j < end ==> name[j] != '.'
            },
            None => forall|j: int| 0 <= j < end ==> name[j] != '.',
        },
    decreases end,
{
    if end > 0 && name[end - 1] != '.' {
        lemma_last_dot(name, end - 1);
    }
}

/// A name has the final extension `text`, where `text` holds no `.`, exactly
/// when it ends in a `.` followed by `text`.
pub proof fn lemma_extension_is_suffix(name: Seq<char>, text: Seq<char>)
    requires
        forall|i: int| 0 <= i < text.len() ==> text[i] != '.',
    ensures
        extension_of(name) == Some(text) <==> name.len() > text.len() && name.subrange(
            name.len() - text.len() - 1,
            name.len() as int,
        ) == seq!['.'] + text,
{
    let len = name.len() as int;
    lemma_last_dot(name, len);
    if extension_of(name) == Some(text) {
        let dot = last_dot_before(name, len)->Some_0;
        assert(name.subrange(dot + 1, len) == text);
        assert(name.subrange(dot + 1, len).len() == text.len());
        assert(name.subrange(dot, len) =~= seq!['.'] + name.subrange(dot + 1, len));
    }
    if name.len() > text.len() && name.subrange(len - text.len() - 1, len) == seq!['.'] + text {
        let at = len - text.len() - 1;
        let tail = name.subrange(at, len);
        assert(name[at] == tail[0]);
        assert forall|j: int| at < j < len implies name[j] != '.' by {
            assert(name[j] == tail[j - at]);
            assert(tail[j - at] == text[j - at - 1]);
        }
        assert(last_dot_before(name, len) == Some(at));
        assert forall|k: int| 0 <= k < text.len() implies name.subrange(at + 1, len)[k]
            == text[k] by {
            assert(name[at + 1 + k] == tail[k + 1]);
            assert(tail[k + 1] == text[k]);
        }
        assert(name.subrange(at + 1, len) =~= text);
    }
}

/// The final extension of a file name.
pub fn extension(name: &str) -> (r: Option<&str>)
    ensures
        match extension_of(name@) {
            Some(text) => r matches Some(found) && found@ == text,
            None => r is None,
        },
{
    let len: usize = name.unicode_len();
    let mut end: usize = len;
    while end > 0
        invariant
            len == name@.len(),
            end <= len,
            last_dot_before(name@, len as int) == last_dot_before(name@, end as int),
        decreases end,
    {
        if name.get_char(end - 1) == '.' {
            return Some(name.substring_char(end, len));
        }
        end -= 1;
    }
    None
}

impl FileFormat {
    /// The format that a file name's final extension stands for; nothing
    /// for any other extension and for a name without one.
    pub fn from_filename(name: &str) -> (r: Option<FileFormat>)
        ensures
            r == format_of(name@),
    {
        match extension(name) {
            Some(found) => {
                if str_equal(found, "jsonl") {
                    Some(FileFormat::JsonLines)
                } else if str_equal(found, "json") {
                    Some(FileFormat::Json)
                } else if str_equal(found, "csv") {
                    Some(FileFormat::Csv)
                } else {
                    None
                }
            },
            None => None,
        }
    }
}

} // verus!
