use financial_history_builder::replies::{
    generation_outcome, upload_poll_step, upload_start_headers, PollAction, ReplyCandidate, ReplyPart,
};

fn candidate(finish: Option<&str>, parts: Option<Vec<ReplyPart>>) -> ReplyCandidate {
    ReplyCandidate { finish_reason: finish.map(|s| s.to_string()), content: parts }
}

#[test]
fn poll_states() {
    assert_eq!(upload_poll_step("ACTIVE"), PollAction::Done);
    assert_eq!(upload_poll_step("FAILED"), PollAction::Failed);
    assert_eq!(upload_poll_step("PROCESSING"), PollAction::Wait);
    assert_eq!(upload_poll_step("active"), PollAction::Wait);
}

#[test]
fn upload_headers_in_order() {
    let h = upload_start_headers(2048, "application/pdf");
    let expected = vec![
        ("X-Goog-Upload-Protocol", "resumable"),
        ("X-Goog-Upload-Command", "start"),
        ("X-Goog-Upload-Header-Content-Length", "2048"),
        ("X-Goog-Upload-Header-Content-Type", "application/pdf"),
        ("Content-Type", "application/json"),
    ];
    let got: Vec<(&str, &str)> = h.iter().map(|(a, b)| (a.as_str(), b.as_str())).collect();
    assert_eq!(got, expected);
}

#[test]
fn reply_checks_in_order() {
    let text = || Some(vec![ReplyPart::Text("{}".to_string())]);
    assert_eq!(
        generation_outcome(&Some("SPAM".to_string()), &Some(vec![candidate(Some("STOP"), text())])),
        Err("Prompt blocked by safety settings. Reason: SPAM".to_string())
    );
    assert_eq!(generation_outcome(&None, &None), Err("No candidates returned (Prompt filtered?)".to_string()));
    assert_eq!(generation_outcome(&None, &Some(vec![])), Err("Empty candidate list".to_string()));
    assert_eq!(
        generation_outcome(&None, &Some(vec![candidate(Some("RECITATION"), text())])),
        Err("Generation stopped due to: RECITATION".to_string())
    );
    assert!(generation_outcome(&None, &Some(vec![candidate(Some("MAX_TOKENS"), text())]))
        .unwrap_err()
        .starts_with("MAX_TOKENS: Response was truncated."));
    assert_eq!(
        generation_outcome(&None, &Some(vec![candidate(Some("STOP"), None)])),
        Err("Candidate has no content (Safety block)".to_string())
    );
    assert_eq!(
        generation_outcome(&None, &Some(vec![candidate(None, Some(vec![]))])),
        Err("No parts in content".to_string())
    );
    assert_eq!(
        generation_outcome(&None, &Some(vec![candidate(Some("STOP"), Some(vec![ReplyPart::Other]))])),
        Err("Model returned non-text content".to_string())
    );
    assert_eq!(generation_outcome(&None, &Some(vec![candidate(Some("OTHER"), text())])), Ok("{}".to_string()));
}
