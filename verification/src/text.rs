use vstd::prelude::*;

use crate::domain::{BatchSetReport, ScreenId, ScreenOperationError};

verus! {

/// The text that `{:?}` gives for `std::path::Path::new(path)`.
pub uninterp spec fn path_debug_text(path: Seq<char>) -> Seq<char>;

/// The text that `{:?}` gives for a string slice (quoted, escaped).
pub uninterp spec fn str_debug_text(text: Seq<char>) -> Seq<char>;

/// Whether `std::path::Path` compares the two paths as equal (component by component).
pub uninterp spec fn paths_equal(a: Seq<char>, b: Seq<char>) -> bool;

/// The extension that `std::path::Path::extension` finds in `path`, as text.
pub uninterp spec fn path_extension(path: Seq<char>) -> Option<Seq<char>>;

/// Formats a path with `Debug`, as `std::path::Path` does (quoted, escaped).
#[verifier::external_body]
pub(crate) fn path_debug(path: &str) -> (text: String)
    ensures
        text@ == path_debug_text(path@),
{
    format!("{:?}", std::path::Path::new(path))
}

/// Formats a string slice with `Debug` (quoted, escaped).
#[verifier::external_body]
pub(crate) fn str_debug(text: &str) -> (debug: String)
    ensures
        debug@ == str_debug_text(text@),
{
    format!("{:?}", text)
}

/// Whether two paths are equal as `std::path::Path` compares them; a path
/// always equals itself.
#[verifier::external_body]
pub fn same_path(a: &str, b: &str) -> (same: bool)
    ensures
        same == paths_equal(a@, b@),
        a@ == b@ ==> same,
{
    std::path::Path::new(a) == std::path::Path::new(b)
}

/// How `Debug` shows a screen identifier: `ScreenId("...")`.
pub open spec fn screen_id_debug_text(id: ScreenId) -> Seq<char> {
    "ScreenId("@ + str_debug_text(id@) + ")"@
}

/// How `Debug` shows a failure entry of a report; the path is shown as a path.
pub open spec fn failure_debug_text(entry: ScreenOperationError) -> Seq<char> {
    "ScreenOperationError { screen_id: "@ + screen_id_debug_text(entry.screen_id) + ", image_path: "@
        + path_debug_text(entry.image_path@) + ", error_code: "@ + str_debug_text(
        entry.error_code@,
    ) + ", message: "@ + str_debug_text(entry.message@) + " }"@
}

/// The first `n` identifiers as `Debug` shows them, separated by `, `.
pub open spec fn ids_debug_text(ids: Seq<ScreenId>, n: nat) -> Seq<char>
    decreases n,
{
    if n == 0 {
        seq![]
    } else if n == 1 {
        screen_id_debug_text(ids[0])
    } else {
        ids_debug_text(ids, (n - 1) as nat) + ", "@ + screen_id_debug_text(ids[n - 1])
    }
}

/// The first `n` failure entries as `Debug` shows them, separated by `, `.
pub open spec fn failures_debug_text(entries: Seq<ScreenOperationError>, n: nat) -> Seq<char>
    decreases n,
{
    if n == 0 {
        seq![]
    } else if n == 1 {
        failure_debug_text(entries[0])
    } else {
        failures_debug_text(entries, (n - 1) as nat) + ", "@ + failure_debug_text(entries[n - 1])
    }
}

/// How `Debug` shows a batch report.
pub open spec fn report_debug_text(report: BatchSetReport) -> Seq<char> {
    "BatchSetReport { succeeded: ["@ + ids_debug_text(report.succeeded@, report.succeeded@.len())
        + "], failed: ["@ + failures_debug_text(report.failed@, report.failed@.len()) + "] }"@
}

fn screen_id_debug(id: &ScreenId) -> (text: String)
    ensures
        text@ == screen_id_debug_text(*id),
{
    let inner = str_debug(id.as_str());
    let mut text = joined("ScreenId(", inner.as_str());
    text.append(")");
    text
}

fn failure_debug(entry: &ScreenOperationError) -> (text: String)
    ensures
        text@ == failure_debug_text(*entry),
{
    let id = screen_id_debug(&entry.screen_id);
    let mut text = joined("ScreenOperationError { screen_id: ", id.as_str());
    text.append(", image_path: ");
    let path = path_debug(entry.image_path.as_str());
    text.append(path.as_str());
    text.append(", error_code: ");
    let code = str_debug(entry.error_code.as_str());
    text.append(code.as_str());
    text.append(", message: ");
    let message = str_debug(entry.message.as_str());
    text.append(message.as_str());
    text.append(" }");
    text
}

/// Formats a batch report as its `Debug` does, showing image paths as paths.
pub fn report_debug(report: &BatchSetReport) -> (text: String)
    ensures
        text@ == report_debug_text(*report),
{
    let mut text = String::from_str("BatchSetReport { succeeded: [");
    let ghost start = text@;
    let ids = &report.succeeded;
    let mut i: usize = 0;
    while i < ids.len()
        invariant
            i <= ids@.len(),
            text@ == start + ids_debug_text(ids@, i as nat),
        decreases ids@.len() - i,
    {
        if i > 0 {
            text.append(", ");
        }
        let item = screen_id_debug(&ids[i]);
        text.append(item.as_str());
        i = i + 1;
    }
    text.append("], failed: [");
    let ghost middle = text@;
    let entries = &report.failed;
    let mut j: usize = 0;
    while j < entries.len()
        invariant
            j <= entries@.len(),
            text@ == middle + failures_debug_text(entries@, j as nat),
        decreases entries@.len() - j,
    {
        if j > 0 {
            text.append(", ");
        }
        let item = failure_debug(&entries[j]);
        text.append(item.as_str());
        j = j + 1;
    }
    text.append("] }");
    text
}

/// The extension of a path, as `std::path::Path::extension` finds it.
#[verifier::external_body]
pub(crate) fn extension_of(path: &str) -> (ext: Option<String>)
    ensures
        match ext {
            Some(e) => path_extension(path@) == Some(e@),
            None => path_extension(path@).is_none(),
        },
{
    std::path::Path::new(path).extension().and_then(|e| e.to_str()).map(|e| e.to_string())
}

/// `prefix` followed by `rest`.
pub(crate) fn joined(prefix: &str, rest: &str) -> (text: String)
    ensures
        text@ == prefix@ + rest@,
{
    let mut text = String::from_str(prefix);
    text.append(rest);
    text
}

/// A character with ASCII upper-case letters folded to lower case, as a code point.
pub open spec fn ascii_folded(c: char) -> u32 {
    if 'A' <= c <= 'Z' {
        (c as u32 + 32) as u32
    } else {
        c as u32
    }
}

/// Two texts are equal up to ASCII letter case (`str::eq_ignore_ascii_case`).
pub open spec fn eq_ignoring_ascii_case(a: Seq<char>, b: Seq<char>) -> bool {
    &&& a.len() == b.len()
    &&& forall|i: int| 0 <= i < a.len() ==> ascii_folded(#[trigger] a[i]) == ascii_folded(b[i])
}

fn fold_char(c: char) -> (folded: u32)
    ensures
        folded == ascii_folded(c),
{
    if 'A' <= c && c <= 'Z' {
        (c as u32) + 32
    } else {
        c as u32
    }
}

/// Whether `a` and `b` are equal up to ASCII letter case.
pub fn same_ignoring_ascii_case(a: &str, b: &str) -> (same: bool)
    ensures
        same == eq_ignoring_ascii_case(a@, b@),
{
    let n = a.unicode_len();
    if n != b.unicode_len() {
        return false;
    }
    let mut i: usize = 0;
    while i < n
        invariant
            n == a@.len(),
            n == b@.len(),
            i <= n,
            forall|j: int| 0 <= j < i ==> ascii_folded(#[trigger] a@[j]) == ascii_folded(b@[j]),
        decreases n - i,
    {
        if fold_char(a.get_char(i)) != fold_char(b.get_char(i)) {
            return false;
        }
        i = i + 1;
    }
    true
}

/// The decimal digits of `n`.
pub open spec fn decimal_text(n: nat) -> Seq<char>
    decreases n,
{
    if n < 10 {
        seq![digit_char(n)]
    } else {
        decimal_text(n / 10) + seq![digit_char(n % 10)]
    }
}

/// The character of a decimal digit.
pub open spec fn digit_char(d: nat) -> char {
    if d == 0 {
        '0'
    } else if d == 1 {
        '1'
    } else if d == 2 {
        '2'
    } else if d == 3 {
        '3'
    } else if d == 4 {
        '4'
    } else if d == 5 {
        '5'
    } else if d == 6 {
        '6'
    } else if d == 7 {
        '7'
    } else if d == 8 {
        '8'
    } else {
        '9'
    }
}

fn digit_str(d: usize) -> (s: &'static str)
    requires
        d < 10,
    ensures
        s@ == seq![digit_char(d as nat)],
{
    proof {
        reveal_strlit("0");
        reveal_strlit("1");
        reveal_strlit("2");
        reveal_strlit("3");
        reveal_strlit("4");
        reveal_strlit("5");
        reveal_strlit("6");
        reveal_strlit("7");
        reveal_strlit("8");
        reveal_strlit("9");
    }
    if d == 0 {
        "0"
    } else if d == 1 {
        "1"
    } else if d == 2 {
        "2"
    } else if d == 3 {
        "3"
    } else if d == 4 {
        "4"
    } else if d == 5 {
        "5"
    } else if d == 6 {
        "6"
    } else if d == 7 {
        "7"
    } else if d == 8 {
        "8"
    } else {
        "9"
    }
}

/// `n` written in decimal.
pub fn decimal(n: usize) -> (text: String)
    ensures
        text@ == decimal_text(n as nat),
    decreases n,
{
    if n < 10 {
        String::from_str(digit_str(n))
    } else {
        let mut text = decimal(n / 10);
        text.append(digit_str(n % 10));
        text
    }
}

} // verus!
