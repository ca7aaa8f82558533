use vstd::prelude::*;

use crate::codec::{json_of_text, parse_json, pretty_text_of, to_pretty};
use crate::json::JsonV;
use crate::transform::{
    lemma_transform_idempotent, lemma_transform_preserves_wf, transform, transform_value,
};

verus! {

/// The formatted text of a document text: parse it, canonicalize the
/// permission arrays, pretty-print, and end with one newline. `None`
/// when the text is not valid JSON.
pub open spec fn spec_format(s: Seq<char>) -> Option<Seq<char>> {
    match json_of_text(s) {
        Some(v) => Some(pretty_text_of(transform(v)) + "\n"@),
        None => None,
    }
}

/// Format a settings document: sort and deduplicate the
/// `permissions.allow`, `permissions.ask` and `permissions.deny`
/// arrays, leave every other field alone, and re-serialize with
/// two-space indentation and a trailing newline. The output denotes
/// exactly the transformed input, and formatting it again gives it
/// back unchanged.
pub fn format_claude_settings(input: &str) -> (r: Result<String, String>)
    ensures
        r is Ok <==> json_of_text(input@) is Some,
        r matches Ok(o) ==> Some(o@) == spec_format(input@),
        r matches Ok(o) ==> spec_format(o@) == Some(o@),
        r matches Ok(o) ==> json_of_text(o@) == (match json_of_text(input@) {
            Some(v) => Some(transform(v)),
            None => None::<JsonV>,
        }),
{
    match parse_json(input) {
        Err(e) => {
            let mut msg = String::from_str("invalid JSON: ");
            msg.append(e.as_str());
            Err(msg)
        },
        Ok(j) => {
            let ghost jv = j@;
            proof {
                lemma_transform_preserves_wf(jv);
            }
            let t = transform_value(j);
            let mut out = to_pretty(&t);
            out.append("\n");
            proof {
                lemma_transform_idempotent(jv);
            }
            Ok(out)
        },
    }
}

} // verus!
