//! Finding the variant payload in the inline scripts of a product page.
//!
//! The sizing script of a product page holds one line of the form
//! `variants: [ ... ],`. What stands between the label and the trailing
//! comma is the payload: the text of a JSON array of variant records.
//! This module cuts the payload out; it does not read the JSON.

use vstd::prelude::*;
use vstd::string::{StrSliceExecFns, StringExecFns};

use crate::bytes::{skip_bytes, skip_bytes_start, CutError};
use crate::html::{html_script_texts, is_parsable, oversized, script_texts, Fetched};
use crate::search::{contains, occurs};
use crate::text::{chars_of, sub_chars, texts};
use crate::trim::{
    line_bounds, lines_of, strip_trailing, strip_trailing_end, trim_bounds, trimmed,
};

verus! {

broadcast use vstd::string::group_string_axioms;

/// Why a line that names the variants yields no payload.
#[derive(Clone, Copy, Debug, PartialEq, Eq)]
pub enum PayloadError {
    /// The line, trimmed, is shorter than the label it should start with.
    ShortLine,
    /// The width of the label ends inside a character of the line.
    SplitCharacter,
    /// The page is too long to be parsed.
    DocumentTooLong,
}

/// The width in bytes of the label before the payload, `variants: `.
pub const LABEL_BYTES: usize = 10;

/// The text by which the sizing script is known.
pub open spec fn script_marker() -> Seq<char> {
    "KiwiSizing.data"@
}

/// The text by which the line with the payload is known.
pub open spec fn line_marker() -> Seq<char> {
    "variants"@
}

/// The library's error for a failed cut.
pub open spec fn payload_error(e: CutError) -> PayloadError {
    match e {
        CutError::TooShort => PayloadError::ShortLine,
        CutError::InsideCharacter => PayloadError::SplitCharacter,
    }
}

/// The payload of a line: the line without the white space at its ends,
/// without the first `LABEL_BYTES` bytes of what is left, and without the
/// commas at the end of that.
pub open spec fn line_payload(line: Seq<char>) -> Result<Seq<char>, PayloadError> {
    match skip_bytes(trimmed(line), LABEL_BYTES as nat) {
        Ok(rest) => Ok(strip_trailing(rest, ',')),
        Err(e) => Err(payload_error(e)),
    }
}

/// The payloads of the lines that name the variants, in order; the error of
/// the first such line that yields none, if there is one.
pub open spec fn lines_payloads(lines: Seq<Seq<char>>) -> Result<Seq<Seq<char>>, PayloadError>
    decreases lines.len(),
{
    if lines.len() == 0 {
        Ok(Seq::empty())
    } else {
        match lines_payloads(lines.drop_last()) {
            Err(e) => Err(e),
            Ok(found) => {
                if occurs(lines.last(), line_marker()) {
                    match line_payload(lines.last()) {
                        Ok(payload) => Ok(found.push(payload)),
                        Err(e) => Err(e),
                    }
                } else {
                    Ok(found)
                }
            },
        }
    }
}

/// The payloads that one inline script holds: those of its lines that name
/// the variants if it is the sizing script, none if it is not.
pub open spec fn script_payloads(script: Seq<char>) -> Result<Seq<Seq<char>>, PayloadError> {
    if occurs(script, script_marker()) {
        lines_payloads(lines_of(script))
    } else {
        Ok(Seq::empty())
    }
}

/// The payloads that the inline scripts of a page hold, in document order;
/// the error of the first line that fails, if one does.
pub open spec fn scripts_payloads(scripts: Seq<Seq<char>>) -> Result<
    Seq<Seq<char>>,
    PayloadError,
>
    decreases scripts.len(),
{
    if scripts.len() == 0 {
        Ok(Seq::empty())
    } else {
        match scripts_payloads(scripts.drop_last()) {
            Err(e) => Err(e),
            Ok(found) => match script_payloads(scripts.last()) {
                Ok(more) => Ok(found + more),
                Err(e) => Err(e),
            },
        }
    }
}

/// The payloads of a response: those of the scripts of its document, and
/// none where the page was refused. A document too long to be parsed is an
/// error.
pub open spec fn response_payloads(fetched: Fetched) -> Result<Seq<Seq<char>>, PayloadError> {
    match fetched {
        Fetched::Page(html) => {
            if oversized(fetched) {
                Err(PayloadError::DocumentTooLong)
            } else {
                scripts_payloads(html_script_texts(html@))
            }
        },
        Fetched::Refused => Ok(Seq::empty()),
    }
}

/// `found` holds the texts that the model gives, or is the same error.
pub open spec fn same_payloads(
    found: Result<Vec<String>, PayloadError>,
    model: Result<Seq<Seq<char>>, PayloadError>,
) -> bool {
    match (found, model) {
        (Ok(v), Ok(s)) => texts(v@) == s,
        (Err(e), Err(f)) => e == f,
        _ => false,
    }
}

/// The bounds of the payload in `line`.
pub fn payload_bounds(line: &Vec<char>) -> (r: Result<(usize, usize), PayloadError>)
    ensures
        match r {
            Ok((from, to)) => from <= to <= line.len() && line_payload(line@) == Ok::<
                Seq<char>,
                PayloadError,
            >(line@.subrange(from as int, to as int)),
            Err(e) => line_payload(line@) == Err::<Seq<char>, PayloadError>(e),
        },
{
    let (a, b) = trim_bounds(line);
    match skip_bytes_start(line, a, b, LABEL_BYTES) {
        Ok(start) => {
            let end = strip_trailing_end(line, start, b, ',');
            Ok((start, end))
        },
        Err(CutError::TooShort) => Err(PayloadError::ShortLine),
        Err(CutError::InsideCharacter) => Err(PayloadError::SplitCharacter),
    }
}

/// The payload of `line`.
pub fn variant_payload(line: &str) -> (r: Result<String, PayloadError>)
    ensures
        match r {
            Ok(payload) => line_payload(line@) == Ok::<Seq<char>, PayloadError>(payload@),
            Err(e) => line_payload(line@) == Err::<Seq<char>, PayloadError>(e),
        },
{
    let chars = chars_of(line);
    match payload_bounds(&chars) {
        Ok((from, to)) => Ok(String::from_str(line.substring_char(from, to))),
        Err(e) => Err(e),
    }
}

/// The payloads that the inline script `script` holds.
pub fn payloads_in_script(script: &str) -> (r: Result<Vec<String>, PayloadError>)
    ensures
        same_payloads(r, script_payloads(script@)),
{
    let mut found: Vec<String> = Vec::new();
    assert(texts(found@) =~= Seq::<Seq<char>>::empty());
    let chars = chars_of(script);
    let data = chars_of("KiwiSizing.data");
    if !contains(&chars, &data) {
        return Ok(found);
    }
    let variants = chars_of("variants");
    let bounds = line_bounds(&chars);
    let ghost lines = lines_of(script@);
    let mut k: usize = 0;
    while k < bounds.len()
        invariant
            k <= bounds.len(),
            chars@ == script@,
            variants@ == line_marker(),
            occurs(script@, script_marker()),
            lines == lines_of(script@),
            bounds@.len() == lines.len(),
            forall|j: int|
                0 <= j < bounds@.len() ==> {
                    &&& (#[trigger] bounds@[j]).0 <= bounds@[j].1 <= chars.len()
                    &&& chars@.subrange(bounds@[j].0 as int, bounds@[j].1 as int) == lines[j]
                },
            lines_payloads(lines.take(k as int)) == Ok::<Seq<Seq<char>>, PayloadError>(
                texts(found@),
            ),
        decreases bounds.len() - k,
    {
        let (a, b) = bounds[k];
        let line = sub_chars(&chars, a, b);
        assert(lines.take(k + 1).drop_last() =~= lines.take(k as int));
        if contains(&line, &variants) {
            match payload_bounds(&line) {
                Ok((from, to)) => {
                    let ghost before = texts(found@);
                    assert(script@.subrange(a + from, a + to) =~= line@.subrange(
                        from as int,
                        to as int,
                    ));
                    found.push(String::from_str(script.substring_char(a + from, a + to)));
                    assert(texts(found@) =~= before.push(line@.subrange(from as int, to as int)));
                },
                Err(e) => {
                    proof {
                        lemma_error_stays(lines, k + 1);
                    }
                    return Err(e);
                },
            }
        }
        k += 1;
    }
    assert(lines.take(k as int) =~= lines);
    Ok(found)
}

/// Once the lines up to some point fail, all the lines fail the same way.
proof fn lemma_error_stays(lines: Seq<Seq<char>>, k: int)
    requires
        0 <= k <= lines.len(),
        lines_payloads(lines.take(k)) is Err,
    ensures
        lines_payloads(lines) == lines_payloads(lines.take(k)),
    decreases lines.len(),
{
    if k == lines.len() {
        assert(lines.take(k) =~= lines);
    } else {
        assert(lines.drop_last().take(k) =~= lines.take(k));
        lemma_error_stays(lines.drop_last(), k);
    }
}

/// Once the scripts up to some point fail, all the scripts fail the same way.
proof fn lemma_script_error_stays(scripts: Seq<Seq<char>>, k: int)
    requires
        0 <= k <= scripts.len(),
        scripts_payloads(scripts.take(k)) is Err,
    ensures
        scripts_payloads(scripts) == scripts_payloads(scripts.take(k)),
    decreases scripts.len(),
{
    if k == scripts.len() {
        assert(scripts.take(k) =~= scripts);
    } else {
        assert(scripts.drop_last().take(k) =~= scripts.take(k));
        lemma_script_error_stays(scripts.drop_last(), k);
    }
}

/// The payloads that the inline scripts `scripts` of a page hold.
pub fn payloads_in_scripts(scripts: &Vec<String>) -> (r: Result<Vec<String>, PayloadError>)
    ensures
        same_payloads(r, scripts_payloads(texts(scripts@))),
{
    let ghost all = texts(scripts@);
    let mut found: Vec<String> = Vec::new();
    assert(texts(found@) =~= Seq::<Seq<char>>::empty());
    let mut k: usize = 0;
    while k < scripts.len()
        invariant
            k <= scripts.len(),
            all == texts(scripts@),
            scripts_payloads(all.take(k as int)) == Ok::<Seq<Seq<char>>, PayloadError>(
                texts(found@),
            ),
        decreases scripts.len() - k,
    {
        assert(all.take(k + 1).drop_last() =~= all.take(k as int));
        match payloads_in_script(scripts[k].as_str()) {
            Ok(mut more) => {
                let ghost before = texts(found@);
                let ghost added = texts(more@);
                found.append(&mut more);
                assert(texts(found@) =~= before + added);
            },
            Err(e) => {
                proof {
                    lemma_script_error_stays(all, k + 1);
                }
                return Err(e);
            },
        }
        k += 1;
    }
    assert(all.take(k as int) =~= all);
    Ok(found)
}

/// The payloads that the response to a request for a product page holds.
pub fn product_payloads(fetched: &Fetched) -> (r: Result<Vec<String>, PayloadError>)
    ensures
        same_payloads(r, response_payloads(*fetched)),
{
    match fetched {
        Fetched::Page(html) => {
            if !is_parsable(html.as_str()) {
                return Err(PayloadError::DocumentTooLong);
            }
            let scripts = script_texts(html.as_str());
            payloads_in_scripts(&scripts)
        },
        Fetched::Refused => {
            let none: Vec<String> = Vec::new();
            assert(texts(none@) =~= Seq::<Seq<char>>::empty());
            Ok(none)
        },
    }
}

} // verus!
