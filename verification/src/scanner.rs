//! Scanning snapshot content for sensitive patterns, and the verdict rules.

use vstd::prelude::*;
use vstd::string::*;

use crate::models::{finding_view, ComplianceFinding};
use crate::FileEntry;

verus! {

broadcast use vstd::string::group_string_axioms;

/// All non-overlapping matches of a regular expression in a text,
/// leftmost-first, as the outside regex engine finds them.
pub uninterp spec fn matches_of(pattern: Seq<char>, text: Seq<char>) -> Seq<Seq<char>>;

/// Whether the regex grammar accepts a pattern.
pub uninterp spec fn pattern_compiles(pattern: Seq<char>) -> bool;

/// Relies on regex::Regex::new and Regex::find_iter: `new` fails exactly on
/// patterns the regex grammar refuses, and `find_iter` yields the
/// non-overlapping leftmost-first matches, a function of the pattern and
/// the text alone.
#[verifier::external_body]
fn find_pattern_matches(pattern: &str, text: &str) -> (r: Option<Vec<String>>)
    ensures
        r matches Some(v) ==> v.deep_view() == matches_of(pattern@, text@),
        (r is Some) == pattern_compiles(pattern@),
{
    match regex::Regex::new(pattern) {
        Ok(re) => Some(re.find_iter(text).map(|m| m.as_str().to_string()).collect()),
        Err(_) => None,
    }
}

/// The permissive text decoding of a file's bytes, as the outside decoder
/// produces it (invalid sequences replaced, never fatal).
pub uninterp spec fn lossy_utf8(bytes: Seq<u8>) -> Seq<char>;

/// Relies on String::from_utf8_lossy: the decoding is a function of the
/// bytes alone; valid UTF-8 decodes exactly, and empty input decodes to the
/// empty string.
#[verifier::external_body]
fn utf8_lossy(bytes: &[u8]) -> (r: String)
    ensures
        r@ == lossy_utf8(bytes@),
        vstd::utf8::valid_utf8(bytes@) ==> r@ == vstd::utf8::decode_utf8(bytes@),
        bytes@.len() == 0 ==> r@.len() == 0,
{
    String::from_utf8_lossy(bytes).into_owned()
}

/// The email pattern.
pub open spec fn email_pattern() -> Seq<char> {
    "[a-zA-Z0-9_.+-]+@[a-zA-Z0-9-]+\\.[a-zA-Z0-9-.]+"@
}

fn email_pattern_str() -> (r: &'static str)
    ensures
        r@ == email_pattern(),
{
    "[a-zA-Z0-9_.+-]+@[a-zA-Z0-9-]+\\.[a-zA-Z0-9-.]+"
}

/// The phone-number-like pattern.
pub open spec fn phone_pattern() -> Seq<char> {
    "\\+?\\d[\\d\\s\\-().]{7,}\\d"@
}

fn phone_pattern_str() -> (r: &'static str)
    ensures
        r@ == phone_pattern(),
{
    "\\+?\\d[\\d\\s\\-().]{7,}\\d"
}

/// The IBAN-like pattern.
pub open spec fn iban_pattern() -> Seq<char> {
    "\\b[A-Z]{2}\\d{2}[A-Z0-9]{11,30}\\b"@
}

fn iban_pattern_str() -> (r: &'static str)
    ensures
        r@ == iban_pattern(),
{
    "\\b[A-Z]{2}\\d{2}[A-Z0-9]{11,30}\\b"
}

/// One finding view per match, tagged with a finding type, at a path.
pub open spec fn tag_matches(tag: Seq<char>, path: Seq<char>, ms: Seq<Seq<char>>) -> Seq<
    (Seq<char>, Seq<char>, Seq<char>),
> {
    ms.map_values(|m: Seq<char>| (tag, path, m))
}

/// The findings of one file: empty for empty (or undecodable-to-empty)
/// text, otherwise all email, phone and IBAN matches, in that order.
pub open spec fn file_findings(path: Seq<char>, text: Seq<char>) -> Seq<
    (Seq<char>, Seq<char>, Seq<char>),
> {
    if text.len() == 0 {
        Seq::empty()
    } else {
        tag_matches("EMAIL"@, path, matches_of(email_pattern(), text)) + tag_matches(
            "PHONE"@,
            path,
            matches_of(phone_pattern(), text),
        ) + tag_matches("IBAN"@, path, matches_of(iban_pattern(), text))
    }
}

/// The content of a snapshot: each entry's path and bytes.
pub open spec fn entries_view(es: Seq<FileEntry>) -> Seq<(Seq<char>, Seq<u8>)> {
    es.map_values(|e: FileEntry| e.entry_view())
}

/// The findings of a whole snapshot, file by file in snapshot order.
pub open spec fn scan_findings(es: Seq<(Seq<char>, Seq<u8>)>) -> Seq<
    (Seq<char>, Seq<char>, Seq<char>),
>
    decreases es.len(),
{
    if es.len() == 0 {
        Seq::empty()
    } else {
        scan_findings(es.drop_last()) + file_findings(es.last().0, lossy_utf8(es.last().1))
    }
}

/// All three fixed patterns compile.
pub open spec fn patterns_ok() -> bool {
    pattern_compiles(email_pattern()) && pattern_compiles(phone_pattern()) && pattern_compiles(
        iban_pattern(),
    )
}

/// Append one finding per match, with the given type tag.
fn push_tagged(findings: &mut Vec<ComplianceFinding>, tag: &str, path: &String, ms: &Vec<String>)
    ensures
        final(findings)@.map_values(|f: ComplianceFinding| finding_view(f)) == old(
            findings,
        )@.map_values(|f: ComplianceFinding| finding_view(f)) + tag_matches(
            tag@,
            path@,
            ms.deep_view(),
        ),
{
    let mut i: usize = 0;
    while i < ms.len()
        invariant
            i <= ms.len(),
            findings@.map_values(|f: ComplianceFinding| finding_view(f)) =~= old(
                findings,
            )@.map_values(|f: ComplianceFinding| finding_view(f)) + tag_matches(
                tag@,
                path@,
                ms.deep_view().take(i as int),
            ),
        decreases ms.len() - i,
    {
        let ghost pre = findings@.map_values(|f: ComplianceFinding| finding_view(f));
        let nf = ComplianceFinding {
            finding_type: tag.to_owned(),
            path: path.clone(),
            detail: ms[i].clone(),
        };
        proof {
            assert(finding_view(nf) == (tag@, path@, ms@[i as int]@));
            assert(ms.deep_view()[i as int] == ms@[i as int]@);
        }
        findings.push(nf);
        proof {
            assert(findings@.map_values(|f: ComplianceFinding| finding_view(f)) =~= pre.push(
                finding_view(nf),
            ));
            assert(ms.deep_view().take(i as int + 1) =~= ms.deep_view().take(i as int).push(
                ms@[i as int]@,
            ));
            assert(findings@.map_values(|f: ComplianceFinding| finding_view(f)) =~= old(
                findings,
            )@.map_values(|f: ComplianceFinding| finding_view(f)) + tag_matches(
                tag@,
                path@,
                ms.deep_view().take(i as int + 1),
            ));
        }
        i += 1;
    }
    proof {
        assert(ms.deep_view().take(ms@.len() as int) =~= ms.deep_view());
    }
}

/// Scan every file of a snapshot for sensitive patterns, one finding per
/// match, with the path of the file it was found in.  Fails only if the
/// regex engine refuses one of the fixed patterns.
pub fn scan_dataset_for_pii(entries: &Vec<FileEntry>) -> (r: Result<
    Vec<ComplianceFinding>,
    crate::models::TeeError,
>)
    ensures
        r matches Ok(fs) ==> fs@.map_values(|f: ComplianceFinding| finding_view(f))
            == scan_findings(entries_view(entries@)),
        (r is Ok) == patterns_ok(),
{
    // Check that the regex engine accepts the fixed patterns before
    // scanning anything.
    if find_pattern_matches(email_pattern_str(), "").is_none() {
        return Err(crate::models::TeeError::ExternalService(
            String::from_str("the email pattern did not compile"),
        ));
    }
    if find_pattern_matches(phone_pattern_str(), "").is_none() {
        return Err(crate::models::TeeError::ExternalService(
            String::from_str("the phone pattern did not compile"),
        ));
    }
    if find_pattern_matches(iban_pattern_str(), "").is_none() {
        return Err(crate::models::TeeError::ExternalService(
            String::from_str("the IBAN pattern did not compile"),
        ));
    }
    let mut findings: Vec<ComplianceFinding> = Vec::new();
    let mut i: usize = 0;
    while i < entries.len()
        invariant
            i <= entries.len(),
            patterns_ok(),
            findings@.map_values(|f: ComplianceFinding| finding_view(f)) =~= scan_findings(
                entries_view(entries@).take(i as int),
            ),
        decreases entries.len() - i,
    {
        let e = &entries[i];
        let text = utf8_lossy(e.data.as_slice());
        let ghost pre = findings@.map_values(|f: ComplianceFinding| finding_view(f));
        proof {
            assert(entries_view(entries@).take(i as int + 1).drop_last() =~= entries_view(
                entries@,
            ).take(i as int));
            assert(entries_view(entries@).take(i as int + 1).last() == (e.path@, e.data@));
        }
        if text.as_str().unicode_len() > 0 {
            // the probes above showed that every pattern compiles, so
            // these calls cannot fail
            let emails = match find_pattern_matches(email_pattern_str(), text.as_str()) {
                Some(v) => v,
                None => {
                    return Err(crate::models::TeeError::ExternalService(
                        String::from_str("the email pattern did not compile"),
                    ));
                },
            };
            let phones = match find_pattern_matches(phone_pattern_str(), text.as_str()) {
                Some(v) => v,
                None => {
                    return Err(crate::models::TeeError::ExternalService(
                        String::from_str("the phone pattern did not compile"),
                    ));
                },
            };
            let ibans = match find_pattern_matches(iban_pattern_str(), text.as_str()) {
                Some(v) => v,
                None => {
                    return Err(crate::models::TeeError::ExternalService(
                        String::from_str("the IBAN pattern did not compile"),
                    ));
                },
            };
            push_tagged(&mut findings, "EMAIL", &e.path, &emails);
            push_tagged(&mut findings, "PHONE", &e.path, &phones);
            push_tagged(&mut findings, "IBAN", &e.path, &ibans);
            proof {
                assert(findings@.map_values(|f: ComplianceFinding| finding_view(f)) =~= pre
                    + file_findings(e.path@, lossy_utf8(e.data@)));
            }
        } else {
            proof {
                assert(file_findings(e.path@, lossy_utf8(e.data@)) =~= Seq::<
                    (Seq<char>, Seq<char>, Seq<char>),
                >::empty());
            }
        }
        proof {
            assert(findings@.map_values(|f: ComplianceFinding| finding_view(f)) =~= scan_findings(
                entries_view(entries@).take(i as int + 1),
            ));
        }
        i += 1;
    }
    proof {
        assert(entries_view(entries@).take(entries@.len() as int) =~= entries_view(entries@));
    }
    Ok(findings)
}

/// The verdict for a finding count.
pub open spec fn verdict_of(n: nat) -> Seq<char> {
    if n == 0 {
        "ALLOW"@
    } else if n < 3 {
        "WARN"@
    } else {
        "BLOCK"@
    }
}

/// The score for a finding count.
pub open spec fn score_of(n: nat) -> int {
    if n == 0 {
        100
    } else if n < 3 {
        70
    } else {
        20
    }
}

/// Compute verdict and score from the number of findings: no findings
/// allow, fewer than three warn, three or more block.  Nothing but the
/// count affects the verdict.
pub fn compute_verdict_and_score(findings: &Vec<ComplianceFinding>) -> (r: (String, i32))
    ensures
        r.0@ == verdict_of(findings@.len()),
        r.1 as int == score_of(findings@.len()),
{
    let count = findings.len();
    if count == 0 {
        (String::from_str("ALLOW"), 100)
    } else if count < 3 {
        (String::from_str("WARN"), 70)
    } else {
        (String::from_str("BLOCK"), 20)
    }
}

} // verus!
