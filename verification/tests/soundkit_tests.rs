use harmony_glitch::soundkit::{kit_mime, kit_request, KitRequestError};

#[test]
fn kit_request_splits_and_decodes() {
    assert_eq!(kit_request("/retro-kit/jump.ogg"), Ok(("retro-kit".to_string(), "jump.ogg".to_string())));
    assert_eq!(kit_request("//retro-kit/sub/my%20jump.ogg"), Ok(("retro-kit".to_string(), "sub/my jump.ogg".to_string())));
    assert_eq!(kit_request("/kit/%zz"), Ok(("kit".to_string(), "%zz".to_string())));
    assert_eq!(kit_request("/kit/%ff"), Ok(("kit".to_string(), String::new())));
}

#[test]
fn kit_request_refusals() {
    assert_eq!(kit_request("/retro-kit"), Err(KitRequestError::InvalidPath));
    assert_eq!(kit_request("/my.kit/a.ogg"), Err(KitRequestError::InvalidKitId));
    assert_eq!(kit_request("//a.ogg"), Err(KitRequestError::InvalidPath));
    assert_eq!(kit_request("/kit/../x"), Err(KitRequestError::PathTraversal));
    assert_eq!(kit_request("/kit/%2e%2e/x"), Err(KitRequestError::PathTraversal));
}

#[test]
fn refusal_answers() {
    assert_eq!(KitRequestError::InvalidPath.status(), 400);
    assert_eq!(KitRequestError::InvalidPath.body(), "Invalid path");
    assert_eq!(KitRequestError::InvalidKitId.status(), 403);
    assert_eq!(KitRequestError::InvalidKitId.body(), "Invalid kit ID");
    assert_eq!(KitRequestError::PathTraversal.status(), 403);
    assert_eq!(KitRequestError::PathTraversal.body(), "Path traversal rejected");
}

#[test]
fn mime_by_extension() {
    assert_eq!(kit_mime(Some("mp3")), "audio/mpeg");
    assert_eq!(kit_mime(Some("ogg")), "audio/ogg");
    assert_eq!(kit_mime(Some("wav")), "audio/wav");
    assert_eq!(kit_mime(Some("flac")), "audio/flac");
    assert_eq!(kit_mime(Some("txt")), "application/octet-stream");
    assert_eq!(kit_mime(None), "application/octet-stream");
}
