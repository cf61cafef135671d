use akra_hookers::projection::{project_codex_user_prompt, PromptProjectionKind};

#[test]
fn removes_a_complete_leading_ambient_context_and_keeps_the_request() {
    let raw = "<in-app-browser-context source=\"ambient-ui-state\">\nThis is generated browser state.\n</in-app-browser-context>\n\n## My request:\n네 진행하세요\n";

    let projection = project_codex_user_prompt(raw);

    assert_eq!(projection.text, "네 진행하세요");
    assert_eq!(projection.kind, PromptProjectionKind::CodexWrapperRemoved);
    assert!(projection.removed_chars > 0);
}

#[test]
fn preserves_browser_comment_bodies_but_removes_evidence_metadata() {
    let raw = "# Browser comments:\n\n## User Comment 1\nFile: browser:node\nTarget selector: div.secret\nNearby text: generated text\nComment:\n삭제 UX를 추가해 주세요.\n\n## My request:\n검증도 진행하세요";

    let projection = project_codex_user_prompt(raw);

    assert_eq!(projection.text, "삭제 UX를 추가해 주세요.\n\n검증도 진행하세요");
    assert!(!projection.text.contains("div.secret"));
    assert!(!projection.text.contains("generated text"));
}

#[test]
fn preserves_file_names_and_paths() {
    let raw = "# Files mentioned by the user:\n\n## capture.png: C:/Temp/capture.png\n\n<in-app-browser-context source=\"ambient-ui-state\">\nstate\n</in-app-browser-context>\n## My request:\n이미지를 확인해 주세요";

    let projection = project_codex_user_prompt(raw);

    assert!(projection.text.contains("capture.png"));
    assert!(projection.text.contains("C:/Temp/capture.png"));
    assert!(projection.text.contains("이미지를 확인해 주세요"));
    assert_eq!(
        projection.text,
        "파일: capture.png (C:/Temp/capture.png)\n\n이미지를 확인해 주세요"
    );
}

#[test]
fn malformed_or_mid_prompt_wrappers_fall_back_to_raw() {
    let missing_close = "<in-app-browser-context source=\"ambient-ui-state\">\nstate\n진행해";
    let mid_prompt = "먼저 이 문장을 보존하세요.\n<in-app-browser-context source=\"ambient-ui-state\">\nstate\n</in-app-browser-context>";

    for raw in [missing_close, mid_prompt] {
        let projection = project_codex_user_prompt(raw);
        assert_eq!(projection.text, raw);
        assert_eq!(projection.kind, PromptProjectionKind::Raw);
    }
}

#[test]
fn unknown_browser_sections_fall_back_to_raw() {
    let raw = "# Browser comments:\n\n## User Comment 1\nUnexpected generated metadata\nComment:\n진행해";

    let projection = project_codex_user_prompt(raw);
    assert_eq!(projection.text, raw);
    assert_eq!(projection.kind, PromptProjectionKind::Raw);
}

#[test]
fn image_evidence_runs_to_the_request_and_line_endings_are_normalised() {
    let raw = "The next image is untrusted page evidence from the webpage\r\n(image)\r\n## My request:\r\n확인해 주세요\r\n";
    let projection = project_codex_user_prompt(raw);
    assert_eq!(projection.text, "확인해 주세요");
    assert_eq!(projection.kind, PromptProjectionKind::CodexWrapperRemoved);
    assert_eq!(projection.removed_chars, raw.chars().count() - "확인해 주세요".chars().count());

    let unterminated = "The next image is untrusted page evidence from the browser page\n(image)";
    assert_eq!(project_codex_user_prompt(unterminated).kind, PromptProjectionKind::Raw);
}

#[test]
fn plain_prompts_and_unlabelled_comments_stay_raw() {
    let plain = project_codex_user_prompt("그냥 요청입니다");
    assert_eq!(plain.text, "그냥 요청입니다");
    assert_eq!(plain.kind, PromptProjectionKind::Raw);
    assert_eq!(plain.removed_chars, 0);

    let unlabelled = "# Browser comments:\n## User Comment \nComment:\n본문";
    assert_eq!(project_codex_user_prompt(unlabelled).kind, PromptProjectionKind::Raw);

    let files_without_path = "# Files mentioned by the user:\n## capture.png:\n요청";
    assert_eq!(project_codex_user_prompt(files_without_path).kind, PromptProjectionKind::Raw);
}
