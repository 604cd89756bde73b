//! The capture-to-notification pipeline: decode the captured selection,
//! derive a display title, resolve the text against the table, and pick the
//! notification body. The OS-facing steps (running the capture command,
//! showing the notification, reading the command line) live outside the
//! library and hand plain values in.

use vstd::prelude::*;
use vstd::string::StrSliceExecFns;
use vstd::string::StringExecFns;
use crate::dict::{get_address_label, AddressDict};
use crate::normalize::norm_spec;
use crate::record::msg_spec;

verus! {

/// The text that a byte sequence decodes to, invalid sequences replaced.
pub uninterp spec fn utf8_lossy_of(bytes: Seq<u8>) -> Seq<char>;

/// Decodes captured bytes as text, replacing invalid sequences.
///
/// Relies on `String::from_utf8_lossy` of std: the decoded text is a
/// function of the bytes alone.
#[verifier::external_body]
fn from_utf8_lossy_string(bytes: &[u8]) -> (r: String)
    ensures
        r@ == utf8_lossy_of(bytes@),
{
    String::from_utf8_lossy(bytes).into_owned()
}

/// The captured selection, decoded: `success` and `stdout` are what the
/// underlying capture command reported and wrote. A failed attempt yields
/// the capture error; a successful one yields the captured bytes as text.
pub fn get_selected_text(success: bool, stdout: &[u8]) -> (r: Result<String, String>)
    ensures
        r is Ok <==> success,
        success ==> r.unwrap()@ == utf8_lossy_of(stdout@),
        !success ==> r.unwrap_err()@ == "Failed to get selected text"@,
{
    if success {
        Ok(from_utf8_lossy_string(stdout))
    } else {
        Err("Failed to get selected text".to_owned())
    }
}

/// The display title derived from captured text `s`.
pub open spec fn title_spec(s: Seq<char>) -> Seq<char> {
    if s.len() >= 18 {
        s.take(10) + "..."@ + s.skip(s.len() - 8)
    } else {
        s
    }
}

/// Derives the notification title: text of 18 or more characters is cut to
/// its first 10 characters, an ellipsis marker, and its last 8 characters;
/// shorter text is shown unchanged.
pub fn make_title(text: &str) -> (r: String)
    ensures
        r@ == title_spec(text@),
{
    let n = text.unicode_len();
    if n >= 18 {
        let prefix = text.substring_char(0, 10);
        let suffix = text.substring_char(n - 8, n);
        let mut r = prefix.to_owned();
        r.append("...");
        r.append(suffix);
        r
    } else {
        text.to_owned()
    }
}

/// The notification for one fired capture: the title derived from the raw
/// text, and as body either the record message of a hit or the fixed
/// not-found body.
pub fn process_capture(text: &str, address_dict: &AddressDict) -> (r: (String, String))
    requires
        address_dict.wf(),
    ensures
        r.0@ == title_spec(text@),
        address_dict@.contains_key(norm_spec(text@)) ==> r.1@ == msg_spec(
            address_dict@[norm_spec(text@)],
        ),
        !address_dict@.contains_key(norm_spec(text@)) ==> r.1@ == "Address Not Found"@,
{
    let title = make_title(text);
    let body = match get_address_label(text, address_dict) {
        Ok(note) => note,
        Err(_) => "Address Not Found".to_owned(),
    };
    (title, body)
}

/// The config file path: the one the command line chose, or the default.
pub fn get_config_path(config: Option<String>) -> (r: String)
    ensures
        config is Some ==> r@ == config.unwrap()@,
        config is None ==> r@ == "./config/address.json"@,
{
    match config {
        Some(path) => path,
        None => "./config/address.json".to_owned(),
    }
}

} // verus!
