//! Validation of character card documents: a card must parse as JSON, carry
//! `spec` equal to `"chara_card_v2"`, and hold a `data` object.

use vstd::prelude::*;

use crate::models::ValidationResult;
use crate::models::opt_view;
use crate::models::strs_view;
use crate::text::concat_strs;

verus! {

/// What probing a card document yields, as a function of the document text:
/// the parse error text if the text is not JSON, the value of the `spec`
/// string field if present, and whether a `data` field is present.
pub uninterp spec fn card_probe_of(s: Seq<char>) -> (Option<Seq<char>>, Option<Seq<char>>, bool);

/// Relies on serde_json::from_str and serde_json::Value::get / as_str /
/// is_some: whether a document parses, its parse error text, its `spec`
/// string field and the presence of its `data` field are functions of the
/// document text alone.
#[verifier::external_body]
fn card_probe(raw: &str) -> (r: (Option<String>, Option<String>, bool))
    ensures
        opt_view(r.0) == card_probe_of(raw@).0,
        opt_view(r.1) == card_probe_of(raw@).1,
        r.2 == card_probe_of(raw@).2,
{
    match serde_json::from_str::<serde_json::Value>(raw) {
        Ok(v) => (
            None,
            v.get("spec").and_then(|s| s.as_str()).map(|s| s.to_string()),
            v.get("data").is_some(),
        ),
        Err(e) => (Some(e.to_string()), None, false),
    }
}

/// The card's `spec` field names the expected format.
pub open spec fn card_spec_ok(sf: Option<Seq<char>>) -> bool {
    sf == Option::Some("chara_card_v2"@)
}

/// The error lines a probed card earns: one when the `spec` field is wrong,
/// one when the `data` object is missing.
pub open spec fn card_errors(sf: Option<Seq<char>>, has_data: bool) -> Seq<Seq<char>> {
    (if !card_spec_ok(sf) {
        seq!["spec must be chara_card_v2"@]
    } else {
        Seq::<Seq<char>>::empty()
    }) + (if !has_data {
        seq!["missing data object"@]
    } else {
        Seq::<Seq<char>>::empty()
    })
}

/// Validate a character card document. A document that is not JSON is
/// reported invalid with the parse error; otherwise the card is valid
/// exactly when its `spec` field and `data` object check out.
pub fn character_validate_v2(raw_json: String) -> (r: Result<ValidationResult, String>)
    ensures
        match r {
            Result::Ok(v) => {
                let (pe, sf, hd) = card_probe_of(raw_json@);
                match pe {
                    Option::Some(e) => {
                        &&& !v.valid
                        &&& strs_view(v.errors@) =~= seq!["Invalid JSON: "@ + e]
                    },
                    Option::None => {
                        &&& v.valid == (card_spec_ok(sf) && hd)
                        &&& strs_view(v.errors@) =~= card_errors(sf, hd)
                    },
                }
            },
            Result::Err(_) => false,
        },
{
    let (parse_err, spec_field, has_data) = card_probe(raw_json.as_str());
    match parse_err {
        Option::Some(e) => {
            let msg = concat_strs("Invalid JSON: ", e.as_str());
            let mut errors: Vec<String> = Vec::new();
            errors.push(msg);
            proof {
                let (pe, sf, hd) = card_probe_of(raw_json@);
                assert(strs_view(errors@) =~= seq!["Invalid JSON: "@ + pe->Some_0]);
            }
            Result::Ok(ValidationResult { valid: false, errors })
        },
        Option::None => {
            let mut errors: Vec<String> = Vec::new();
            let spec_ok = match spec_field {
                Option::Some(s) => s == "chara_card_v2".to_owned(),
                Option::None => false,
            };
            if !spec_ok {
                errors.push("spec must be chara_card_v2".to_owned());
            }
            if !has_data {
                errors.push("missing data object".to_owned());
            }
            let valid = spec_ok && has_data;
            proof {
                let (pe, sf, hd) = card_probe_of(raw_json@);
                assert(spec_ok == card_spec_ok(sf));
                assert(strs_view(errors@) =~= card_errors(sf, hd));
            }
            Result::Ok(ValidationResult { valid, errors })
        },
    }
}

} // verus!
