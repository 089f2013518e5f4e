use xmtv_cast::dlna::{
    action_name, after_reply, attempt_step, is_stopped, reply_ends_playback, AttemptError,
    AttemptStep, metadata, request_arguments, request_for,
    transport_uri_arguments, Media, PlayPhase, PlayReply, PlayRequest, PAYLOAD_PLAY,
};

#[test]
fn media_type_is_the_extension() {
    let m = Media::new("http://host/video/a.b.mp4");
    assert_eq!(m.video_url(), "http://host/video/a.b.mp4");
    assert_eq!(m.video_type(), "mp4");
}

#[test]
fn media_without_dot() {
    let m = Media::new("stream");
    assert_eq!(m.video_type(), "stream");
}

#[test]
fn media_ending_in_dot() {
    let m = Media::new("a.");
    assert_eq!(m.video_type(), "");
}

#[test]
fn metadata_names_the_video() {
    let m = Media::new("http://h/v.m3u8");
    let d = metadata(&m);
    assert!(d.starts_with("\n            <DIDL-Lite xmlns=\"urn:schemas-upnp-org:metadata-1-0/DIDL-Lite/\""));
    assert!(d.contains("<res protocolInfo=\"http-get:*:video/m3u8:\" xmlns:pv=\"http://www.pv.com/pvns/\" pv:subtitleFileUri=\"http://h/v.m3u8\" pv:subtitleFileType=\"m3u8\">http://h/v.m3u8</res>"));
    assert!(d.contains("<sec:CaptionInfo sec:type=\"m3u8\">http://h/v.m3u8</sec:CaptionInfo>"));
}

#[test]
fn transport_arguments_escape_the_metadata() {
    let m = Media::new("http://h/v.mp4");
    let p = transport_uri_arguments(&m);
    assert!(p.starts_with("\n        <InstanceID>0</InstanceID>\n        <CurrentURI>http://h/v.mp4</CurrentURI>\n        <CurrentURIMetaData>&#xA;            &lt;DIDL-Lite xmlns=&quot;urn:"));
    assert!(p.ends_with("&lt;/DIDL-Lite&gt;&#xA;            </CurrentURIMetaData>\n        "));
    assert!(!p.contains("<DIDL"));
}

#[test]
fn session_moves_through_its_phases() {
    let mut phase = PlayPhase::SettingUri;
    assert_eq!(request_for(phase), Some(PlayRequest::SetAvTransportUri));
    phase = after_reply(phase, &PlayReply::Answered(None));
    assert_eq!(phase, PlayPhase::Starting);
    assert_eq!(request_for(phase), Some(PlayRequest::Play));
    phase = after_reply(phase, &PlayReply::Answered(None));
    assert_eq!(phase, PlayPhase::Watching);
    phase = after_reply(phase, &PlayReply::Answered(Some("PLAYING".to_string())));
    assert_eq!(phase, PlayPhase::Watching);
    phase = after_reply(phase, &PlayReply::Answered(Some("STOPPED".to_string())));
    assert_eq!(phase, PlayPhase::Finished);
    assert_eq!(request_for(phase), None);
}

#[test]
fn failure_restarts_the_session() {
    assert_eq!(after_reply(PlayPhase::Watching, &PlayReply::Failed), PlayPhase::SettingUri);
    assert_eq!(after_reply(PlayPhase::Starting, &PlayReply::Failed), PlayPhase::SettingUri);
    assert_eq!(after_reply(PlayPhase::Finished, &PlayReply::Failed), PlayPhase::Finished);
}

#[test]
fn missing_state_ends_watching() {
    assert_eq!(after_reply(PlayPhase::Watching, &PlayReply::Answered(None)), PlayPhase::Finished);
}

#[test]
fn stopped_states() {
    assert!(is_stopped(None));
    assert!(is_stopped(Some(&"STOPPED".to_string())));
    assert!(!is_stopped(Some(&"stopped".to_string())));
    assert!(!is_stopped(Some(&"TRANSITIONING".to_string())));
}

#[test]
fn action_names_and_arguments() {
    let m = Media::new("x.mp4");
    assert_eq!(action_name(PlayRequest::SetAvTransportUri), "SetAVTransportURI");
    assert_eq!(action_name(PlayRequest::Play), "Play");
    assert_eq!(action_name(PlayRequest::GetTransportInfo), "GetTransportInfo");
    assert_eq!(request_arguments(PlayRequest::Play, &m), PAYLOAD_PLAY);
    assert_eq!(request_arguments(PlayRequest::GetTransportInfo, &m), "\n    <InstanceID>0</InstanceID>\n    <Speed>1</Speed>\n");
    assert_eq!(request_arguments(PlayRequest::SetAvTransportUri, &m), transport_uri_arguments(&m));
}

#[test]
fn poll_replies() {
    assert!(!reply_ends_playback(&PlayReply::Failed));
    assert!(reply_ends_playback(&PlayReply::Answered(None)));
    assert!(reply_ends_playback(&PlayReply::Answered(Some("STOPPED".to_string()))));
    assert!(!reply_ends_playback(&PlayReply::Answered(Some("PLAYING".to_string()))));
}

#[test]
fn attempt_failures_name_the_request() {
    assert_eq!(attempt_step(PlayPhase::SettingUri, &PlayReply::Failed), AttemptStep::Failed(AttemptError::SetAvTransportUri));
    assert_eq!(attempt_step(PlayPhase::Starting, &PlayReply::Failed), AttemptStep::Failed(AttemptError::Play));
    assert_eq!(attempt_step(PlayPhase::Watching, &PlayReply::Failed), AttemptStep::Failed(AttemptError::Play));
    assert_eq!(attempt_step(PlayPhase::SettingUri, &PlayReply::Answered(None)), AttemptStep::Next(PlayPhase::Starting));
    assert_eq!(attempt_step(PlayPhase::Watching, &PlayReply::Answered(Some("STOPPED".to_string()))), AttemptStep::Next(PlayPhase::Finished));
}
