//! Decisions on the exchanges with a text-generation service: which headers
//! open a file upload, what to do while an uploaded file is processed, and
//! whether a generation reply can be used.
use vstd::prelude::*;

use crate::balancer::str_eq;
use crate::text::{concat2, decimal_string, decimal_text};

verus! {

/// What to do after reading the state of an uploaded file.
#[derive(Debug, Clone, Copy, PartialEq, Eq, Structural)]
pub enum PollAction {
    /// The file is ready.
    Done,
    /// The service failed to process the file.
    Failed,
    /// Ask again after a pause.
    Wait,
}

/// `ACTIVE` means ready, `FAILED` means failed, anything else means wait.
pub open spec fn poll_action_spec(state: Seq<char>) -> PollAction {
    if state == "ACTIVE"@ {
        PollAction::Done
    } else if state == "FAILED"@ {
        PollAction::Failed
    } else {
        PollAction::Wait
    }
}

/// The action for the state an uploaded file is reported in.
pub fn upload_poll_step(state: &str) -> (r: PollAction)
    ensures
        r == poll_action_spec(state@),
{
    if str_eq(state, "ACTIVE") {
        PollAction::Done
    } else if str_eq(state, "FAILED") {
        PollAction::Failed
    } else {
        PollAction::Wait
    }
}

/// The headers that start a resumable upload of `size` bytes of type `mime`.
pub open spec fn upload_start_headers_spec(size: nat, mime: Seq<char>) -> Seq<(Seq<char>, Seq<char>)> {
    seq![
        ("X-Goog-Upload-Protocol"@, "resumable"@),
        ("X-Goog-Upload-Command"@, "start"@),
        ("X-Goog-Upload-Header-Content-Length"@, decimal_text(size)),
        ("X-Goog-Upload-Header-Content-Type"@, mime),
        ("Content-Type"@, "application/json"@),
    ]
}

/// The headers that start a resumable upload, in order.
pub fn upload_start_headers(size: u64, mime: &str) -> (r: Vec<(String, String)>)
    ensures
        r@.len() == 5,
        forall|i: int| 0 <= i < 5 ==> (#[trigger] r@[i]).0@ == upload_start_headers_spec(size as nat, mime@)[i].0
            && r@[i].1@ == upload_start_headers_spec(size as nat, mime@)[i].1,
{
    let mut r: Vec<(String, String)> = Vec::new();
    r.push((String::from_str("X-Goog-Upload-Protocol"), String::from_str("resumable")));
    r.push((String::from_str("X-Goog-Upload-Command"), String::from_str("start")));
    r.push((String::from_str("X-Goog-Upload-Header-Content-Length"), decimal_string(size)));
    r.push((String::from_str("X-Goog-Upload-Header-Content-Type"), String::from_str(mime)));
    r.push((String::from_str("Content-Type"), String::from_str("application/json")));
    proof {
        reveal_strlit("X-Goog-Upload-Protocol");
        reveal_strlit("resumable");
        reveal_strlit("X-Goog-Upload-Command");
        reveal_strlit("start");
        reveal_strlit("X-Goog-Upload-Header-Content-Length");
        reveal_strlit("X-Goog-Upload-Header-Content-Type");
        reveal_strlit("Content-Type");
        reveal_strlit("application/json");
    }
    r
}

/// One part of a reply's content.
#[derive(Debug)]
pub enum ReplyPart {
    Text(String),
    Other,
}

/// One candidate of a generation reply: why generation finished, and its
/// content, if any.
#[derive(Debug)]
pub struct ReplyCandidate {
    pub finish_reason: Option<String>,
    pub content: Option<Vec<ReplyPart>>,
}

/// The error text of a reply truncated by the output limit.
pub open spec fn max_tokens_text() -> Seq<char> {
    "MAX_TOKENS: Response was truncated. The output is likely incomplete and invalid JSON. Try reducing the scope of the request or increasing max_output_tokens."@
}

/// What the first candidate's content gives: the text of its first part.
pub open spec fn content_outcome(content: Option<Vec<ReplyPart>>) -> Result<Seq<char>, Seq<char>> {
    match content {
        None => Err("Candidate has no content (Safety block)"@),
        Some(parts) => if parts@.len() == 0 {
            Err("No parts in content"@)
        } else {
            match parts@[0] {
                ReplyPart::Text(t) => Ok(t@),
                ReplyPart::Other => Err("Model returned non-text content"@),
            }
        },
    }
}

/// Whether a generation reply can be used, checked in this order: a blocked
/// prompt, no candidates, an empty candidate list, a first candidate stopped
/// for safety or recitation, one cut at the output limit; then its content
/// (see `content_outcome`).
pub open spec fn generation_outcome_spec(block_reason: Option<String>, candidates: Option<Vec<ReplyCandidate>>) -> Result<Seq<char>, Seq<char>> {
    match block_reason {
        Some(b) => Err("Prompt blocked by safety settings. Reason: "@ + b@),
        None => match candidates {
            None => Err("No candidates returned (Prompt filtered?)"@),
            Some(cs) => if cs@.len() == 0 {
                Err("Empty candidate list"@)
            } else {
                let c = cs@[0];
                match c.finish_reason {
                    Some(f) => if f@ == "SAFETY"@ || f@ == "RECITATION"@ {
                        Err("Generation stopped due to: "@ + f@)
                    } else if f@ == "MAX_TOKENS"@ {
                        Err(max_tokens_text())
                    } else {
                        content_outcome(c.content)
                    },
                    None => content_outcome(c.content),
                }
            },
        },
    }
}

fn first_part_text(content: &Option<Vec<ReplyPart>>) -> (r: Result<String, String>)
    ensures
        match content_outcome(*content) {
            Ok(t) => r matches Ok(s) && s@ == t,
            Err(e) => r matches Err(s) && s@ == e,
        },
{
    proof {
        reveal_strlit("Candidate has no content (Safety block)");
        reveal_strlit("No parts in content");
        reveal_strlit("Model returned non-text content");
    }
    match content {
        None => Err(String::from_str("Candidate has no content (Safety block)")),
        Some(parts) => {
            if parts.len() == 0 {
                Err(String::from_str("No parts in content"))
            } else {
                match &parts[0] {
                    ReplyPart::Text(t) => Ok(t.clone()),
                    ReplyPart::Other => Err(String::from_str("Model returned non-text content")),
                }
            }
        },
    }
}

/// The text of a generation reply, or the reason it cannot be used (see
/// `generation_outcome_spec`).
pub fn generation_outcome(block_reason: &Option<String>, candidates: &Option<Vec<ReplyCandidate>>) -> (r: Result<String, String>)
    ensures
        match generation_outcome_spec(*block_reason, *candidates) {
            Ok(t) => r matches Ok(s) && s@ == t,
            Err(e) => r matches Err(s) && s@ == e,
        },
{
    proof {
        reveal_strlit("Prompt blocked by safety settings. Reason: ");
        reveal_strlit("No candidates returned (Prompt filtered?)");
        reveal_strlit("Empty candidate list");
        reveal_strlit("Generation stopped due to: ");
        reveal_strlit("SAFETY");
        reveal_strlit("RECITATION");
        reveal_strlit("MAX_TOKENS");
        reveal_strlit("MAX_TOKENS: Response was truncated. The output is likely incomplete and invalid JSON. Try reducing the scope of the request or increasing max_output_tokens.");
    }
    match block_reason {
        Some(b) => return Err(concat2("Prompt blocked by safety settings. Reason: ", b.as_str())),
        None => {},
    }
    let cs = match candidates {
        None => return Err(String::from_str("No candidates returned (Prompt filtered?)")),
        Some(cs) => cs,
    };
    if cs.len() == 0 {
        return Err(String::from_str("Empty candidate list"));
    }
    let c = &cs[0];
    match &c.finish_reason {
        Some(f) => {
            if str_eq(f.as_str(), "SAFETY") || str_eq(f.as_str(), "RECITATION") {
                return Err(concat2("Generation stopped due to: ", f.as_str()));
            }
            if str_eq(f.as_str(), "MAX_TOKENS") {
                return Err(String::from_str(
                    "MAX_TOKENS: Response was truncated. The output is likely incomplete and invalid JSON. Try reducing the scope of the request or increasing max_output_tokens.",
                ));
            }
        },
        None => {},
    }
    first_part_text(&c.content)
}

} // verus!
