//! The title of the game that a clip was recorded from, as the catalog's
//! answer gives it, made fit for a file name.

use vstd::prelude::*;
use vstd::utf8::{encode_utf8, is_ascii_chars, is_ascii_chars_encode_utf8};
use crate::clip_name::{clip_output_name, output_name};
use crate::error::ExportError;
use crate::text::{decimal, decimal_string, is_digit, lemma_decimal_digits};

verus! {

/// The text of the member `key` of the JSON object that `document` holds,
/// in compact JSON notation; `None` where `document` is not JSON, is not an
/// object, or has no such member.
pub uninterp spec fn json_member(document: Seq<char>, key: Seq<char>) -> Option<Seq<char>>;

/// The value of the JSON string that `text` holds; `None` where `text` is
/// not JSON or holds anything but a string.
pub uninterp spec fn json_string(text: Seq<char>) -> Option<Seq<char>>;

/// `name` without the characters that a file name must not hold. With
/// `windows`, the names and endings that Windows reserves are removed too.
pub uninterp spec fn sanitized_name(name: Seq<char>, windows: bool) -> Seq<char>;

/// A character that no file name may hold: one of `/ ? < > \ : * | "`, or a
/// control character from U+0000 to U+001F or from U+0080 to U+009F.
pub open spec fn is_forbidden(c: char) -> bool {
    ||| c == '/'
    ||| c == '?'
    ||| c == '<'
    ||| c == '>'
    ||| c == '\\'
    ||| c == ':'
    ||| c == '*'
    ||| c == '|'
    ||| c == '"'
    ||| c <= '\u{1f}'
    ||| ('\u{80}' <= c && c <= '\u{9f}')
}

/// `name` holds no forbidden character.
pub open spec fn no_forbidden(name: Seq<char>) -> bool {
    forall|i: int| 0 <= i < name.len() ==> !is_forbidden(#[trigger] name[i])
}

/// `name` can stand as a file name: it holds no forbidden character and
/// takes at most 255 bytes in UTF-8.
pub open spec fn fit_for_file_name(name: Seq<char>) -> bool {
    no_forbidden(name) && encode_utf8(name).len() <= 255
}

/// The title that stands for a game whose title is not known.
pub open spec fn default_title() -> Seq<char> {
    "clip"@
}

/// Where the catalog answers requests about the application `app_id`.
pub open spec fn details_url(app_id: nat) -> Seq<char> {
    "https://store.steampowered.com/api/appdetails?appids="@ + decimal(app_id)
}

/// The title in the catalog's answer `body`, as JSON text: the member
/// `name` of the member `data` of the member called by the application's
/// identifier.
pub open spec fn title_text(app_id: nat, body: Seq<char>) -> Option<Seq<char>> {
    match json_member(body, decimal(app_id)) {
        Some(entry) => match json_member(entry, "data"@) {
            Some(data) => json_member(data, "name"@),
            None => None,
        },
        None => None,
    }
}

/// The title in the catalog's answer `body`: the value of the member that
/// `title_text` finds, where that member is a JSON string. Where it is
/// missing, or is null, a number or anything else, there is no title.
pub open spec fn title_value(app_id: nat, body: Seq<char>) -> Option<Seq<char>> {
    match title_text(app_id, body) {
        Some(text) => json_string(text),
        None => None,
    }
}

/// The title to use for the application `app_id`. `response` is the
/// catalog's answer, `None` standing for a request that failed. The title
/// is the sanitized title of the answer, and the default title where there
/// is no answer or no title in it.
pub open spec fn resolved_title(app_id: nat, response: Option<Seq<char>>, windows: bool) -> Seq<
    char,
> {
    match response {
        Some(body) => match title_value(app_id, body) {
            Some(title) => sanitized_name(title, windows),
            None => default_title(),
        },
        None => default_title(),
    }
}

/// Calls `serde_json::from_str` to read `document` as a `serde_json::Value`,
/// `Value::get` to look up `key` in it, and the value's `to_string` to write
/// what was found. The contract gives the outcome the name `json_member`
/// and claims nothing else of it.
#[verifier::external_body]
fn member_text(document: &str, key: &str) -> (member: Option<String>)
    ensures
        match member {
            Some(text) => json_member(document@, key@) == Some(text@),
            None => json_member(document@, key@) is None,
        },
{
    let value: serde_json::Value = match serde_json::from_str(document) {
        Ok(value) => value,
        Err(_) => return None,
    };
    match value.get(key) {
        Some(found) => Some(found.to_string()),
        None => None,
    }
}

/// Calls `serde_json::from_str` to read `text` as a `serde_json::Value` and
/// `Value::as_str` to take the string out of it. The contract gives the
/// outcome the name `json_string` and claims nothing else of it.
#[verifier::external_body]
fn string_value(text: &str) -> (value: Option<String>)
    ensures
        match value {
            Some(string) => json_string(text@) == Some(string@),
            None => json_string(text@) is None,
        },
{
    let parsed: serde_json::Value = match serde_json::from_str(text) {
        Ok(parsed) => parsed,
        Err(_) => return None,
    };
    match parsed.as_str() {
        Some(string) => Some(string.to_string()),
        None => None,
    }
}

/// Calls `sanitize_filename::sanitize_with_options` with the crate's default
/// options but for `windows`. The contract gives the outcome the name
/// `sanitized_name`. It claims besides what the function's removals and its
/// cut at 255 bytes leave: a text without forbidden characters that takes
/// at most 255 bytes.
#[verifier::external_body]
fn sanitize(name: &str, windows: bool) -> (clean: String)
    ensures
        clean@ == sanitized_name(name@, windows),
        fit_for_file_name(clean@),
{
    let defaults = sanitize_filename::Options::default();
    sanitize_filename::sanitize_with_options(name, sanitize_filename::Options { windows, ..defaults })
}

/// The address to ask for the details of the application `app_id`.
pub fn app_details_url(app_id: u64) -> (url: String)
    ensures
        url@ == details_url(app_id as nat),
{
    let mut url: String = String::from_str("https://store.steampowered.com/api/appdetails?appids=");
    url.append(decimal_string(app_id).as_str());
    url
}

/// The title in the catalog's answer: the string under the application's
/// identifier, `data` and `name`. `None` where a member on the way is
/// missing and where the title is not a string.
pub fn title_in_response(app_id: u64, body: &str) -> (title: Option<String>)
    ensures
        match title {
            Some(value) => title_value(app_id as nat, body@) == Some(value@),
            None => title_value(app_id as nat, body@) is None,
        },
{
    let key: String = decimal_string(app_id);
    let text: Option<String> = match member_text(body, key.as_str()) {
        Some(entry) => match member_text(entry.as_str(), "data") {
            Some(data) => member_text(data.as_str(), "name"),
            None => None,
        },
        None => None,
    };
    match text {
        Some(text) => string_value(text.as_str()),
        None => None,
    }
}

/// The title to use: the one that was found, or the default.
pub fn title_or_default(found: Option<String>) -> (title: String)
    ensures
        title@ == match found {
            Some(text) => text@,
            None => default_title(),
        },
{
    match found {
        Some(text) => text,
        None => String::from_str("clip"),
    }
}

/// The body of the catalog's answer, where there is one.
pub open spec fn answer_body(response: Result<String, ExportError>) -> Option<Seq<char>> {
    match response {
        Ok(body) => Some(body@),
        Err(_) => None,
    }
}

/// Resolves the title of the application `app_id` from the catalog's
/// answer. `response` is the body of the answer, or the error where the
/// request failed or was answered with an error status. A failed lookup is
/// not passed on: whatever the lookup brought, a title comes back, and one
/// that can stand as a file name.
pub fn game_title(app_id: u64, response: &Result<String, ExportError>, windows: bool) -> (title:
    String)
    ensures
        title@ == resolved_title(app_id as nat, answer_body(*response), windows),
        fit_for_file_name(title@),
{
    proof {
        lemma_default_title_is_fit();
    }
    let raw: Option<String> = match response {
        Ok(body) => title_in_response(app_id, body.as_str()),
        Err(_) => None,
    };
    let clean: Option<String> = match raw {
        Some(text) => Some(sanitize(text.as_str(), windows)),
        None => None,
    };
    title_or_default(clean)
}

/// Names the output file of a clip, without its extension: the resolved
/// title, the date and the time. A failed lookup is not passed on: a name
/// comes back whatever the lookup brought.
pub fn name_clip(
    app_id: u64,
    date: u64,
    time: u64,
    response: &Result<String, ExportError>,
    windows: bool,
) -> (name: String)
    ensures
        name@ == output_name(
            resolved_title(app_id as nat, answer_body(*response), windows),
            date as nat,
            time as nat,
        ),
        no_forbidden(name@),
{
    let title: String = game_title(app_id, response, windows);
    proof {
        lemma_output_name_has_no_forbidden(title@, date as nat, time as nat);
    }
    clip_output_name(title.as_str(), date, time)
}

/// The default title can stand as a file name.
pub proof fn lemma_default_title_is_fit()
    ensures
        fit_for_file_name(default_title()),
{
    reveal_strlit("clip");
    let title = default_title();
    assert(title.len() == 4);
    assert(is_ascii_chars(title));
    is_ascii_chars_encode_utf8(title);
}

/// A title without forbidden characters gives an output name without
/// them: the date and the time add only digits and spaces.
pub proof fn lemma_output_name_has_no_forbidden(title: Seq<char>, date: nat, time: nat)
    requires
        no_forbidden(title),
    ensures
        no_forbidden(output_name(title, date, time)),
{
    lemma_decimal_digits(date);
    lemma_decimal_digits(time);
    let name = output_name(title, date, time);
    let d = decimal(date);
    let t = decimal(time);
    assert forall|i: int| 0 <= i < name.len() implies !is_forbidden(#[trigger] name[i]) by {
        if i < title.len() {
            assert(name[i] == title[i]);
        } else if i == title.len() {
            assert(name[i] == ' ');
        } else if i < title.len() + 1 + d.len() {
            assert(name[i] == d[i - title.len() - 1]);
            assert(is_digit(d[i - title.len() - 1]));
        } else if i == title.len() + 1 + d.len() {
            assert(name[i] == ' ');
        } else {
            assert(name[i] == t[i - title.len() - d.len() - 2]);
            assert(is_digit(t[i - title.len() - d.len() - 2]));
        }
    }
}

/// A failed lookup, of whatever kind, gives the default title: where the
/// request brought no answer, where the answer holds no title for the
/// application, and where what it holds as the title is not a string.
pub proof fn lemma_failed_lookup_gives_default(
    app_id: nat,
    response: Option<Seq<char>>,
    windows: bool,
)
    requires
        response is None || title_value(app_id, response->0) is None,
    ensures
        resolved_title(app_id, response, windows) == default_title(),
{
}

/// After a failed lookup the output file is still named: `clip`, the date
/// and the time.
pub proof fn lemma_failed_lookup_still_names(
    app_id: nat,
    date: nat,
    time: nat,
    response: Option<Seq<char>>,
    windows: bool,
)
    requires
        response is None || title_value(app_id, response->0) is None,
    ensures
        output_name(resolved_title(app_id, response, windows), date, time) == "clip"@ + seq![' ']
            + decimal(date) + seq![' '] + decimal(time),
{
}

} // verus!
