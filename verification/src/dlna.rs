//! Talking to a DLNA renderer: the media being cast, the SOAP payloads, and the
//! decisions of a playback session.

use vstd::prelude::*;
use crate::text::{chars_equal, chars_of, last_piece, lemma_last_piece, slice_chars, string_of, take_last_piece};

verus! {

broadcast use vstd::string::group_string_axioms;

/// A video to cast: its address and its type (the address's extension).
#[derive(Debug, Clone)]
pub struct Media {
    video_url: String,
    video_type: String,
}

/// What a `Media` holds.
pub struct MediaView {
    pub video_url: Seq<char>,
    pub video_type: Seq<char>,
}

impl View for Media {
    type V = MediaView;

    closed spec fn view(&self) -> MediaView {
        MediaView { video_url: self.video_url@, video_type: self.video_type@ }
    }
}

impl Media {
    /// The media at `url`; its type is what follows the address's last `.`
    /// (the whole address where there is none).
    pub fn new(url: &str) -> (m: Media)
        ensures
            m@.video_url == url@,
            m@.video_type == last_piece(url@, '.'),
    {
        let cs = chars_of(url);
        let kind = take_last_piece(&cs, '.');
        Media { video_url: string_of(cs.as_slice()), video_type: string_of(kind.as_slice()) }
    }

    /// The video's address.
    pub fn video_url(&self) -> (u: &str)
        ensures
            u@ == self@.video_url,
    {
        self.video_url.as_str()
    }

    /// The video's type.
    pub fn video_type(&self) -> (t: &str)
        ensures
            t@ == self@.video_type,
    {
        self.video_type.as_str()
    }
}

/// The DIDL-Lite description is these pieces with the address or the type
/// between each two (see `didl_metadata`).
pub const DIDL_0: &'static str = "\n            <DIDL-Lite xmlns=\"urn:schemas-upnp-org:metadata-1-0/DIDL-Lite/\"\n                xmlns:dc=\"http://purl.org/dc/elements/1.1/\" \n                xmlns:upnp=\"urn:schemas-upnp-org:metadata-1-0/upnp/\" \n                xmlns:dlna=\"urn:schemas-dlna-org:metadata-1-0/\" \n                xmlns:sec=\"http://www.sec.co.kr/\" \n                xmlns:xbmc=\"urn:schemas-xbmc-org:metadata-1-0/\">\n                <item id=\"0\" parentID=\"-1\" restricted=\"1\">\n                    <dc:title>nano-dlna Video</dc:title>\n                    <res protocolInfo=\"http-get:*:video/";
pub const DIDL_1: &'static str = ":\" xmlns:pv=\"http://www.pv.com/pvns/\" pv:subtitleFileUri=\"";
pub const DIDL_2: &'static str = "\" pv:subtitleFileType=\"";
pub const DIDL_3: &'static str = "\">";
pub const DIDL_4: &'static str = "</res>\n                    <res protocolInfo=\"http-get:*:text/srt:*\">";
pub const DIDL_5: &'static str = "</res>\n                    <res protocolInfo=\"http-get:*:smi/caption:*\">";
pub const DIDL_6: &'static str = "</res>\n                    <sec:CaptionInfoEx sec:type=\"";
pub const DIDL_7: &'static str = "\">";
pub const DIDL_8: &'static str = "</sec:CaptionInfoEx>\n                    <sec:CaptionInfo sec:type=\"";
pub const DIDL_9: &'static str = "\">";
pub const DIDL_10: &'static str = "</sec:CaptionInfo>\n                    <upnp:class>object.item.videoItem.movie</upnp:class>\n                </item>\n            </DIDL-Lite>\n            ";

/// The DIDL-Lite description of a video at `url` of type `kind`; the address
/// also stands as the subtitle address and the type as the subtitle type.
pub open spec fn didl_metadata(url: Seq<char>, kind: Seq<char>) -> Seq<char> {
    DIDL_0@ + kind + DIDL_1@ + url + DIDL_2@ + kind + DIDL_3@ + url + DIDL_4@ + url + DIDL_5@ + url + DIDL_6@ + kind + DIDL_7@ + url + DIDL_8@ + kind + DIDL_9@ + url + DIDL_10@
}

/// The DIDL-Lite description of `media` (see `didl_metadata`).
pub fn metadata(media: &Media) -> (m: String)
    ensures
        m@ == didl_metadata(media@.video_url, media@.video_type),
{
    let url = media.video_url();
    let kind = media.video_type();
    let mut m = String::new();
    m.append(DIDL_0);
    m.append(kind);
    m.append(DIDL_1);
    m.append(url);
    m.append(DIDL_2);
    m.append(kind);
    m.append(DIDL_3);
    m.append(url);
    m.append(DIDL_4);
    m.append(url);
    m.append(DIDL_5);
    m.append(url);
    m.append(DIDL_6);
    m.append(kind);
    m.append(DIDL_7);
    m.append(url);
    m.append(DIDL_8);
    m.append(kind);
    m.append(DIDL_9);
    m.append(url);
    m.append(DIDL_10);
    m
}

/// What `escape_attribute` writes for one character.
pub open spec fn escaped_char(c: char) -> Seq<char> {
    if c == '<' {
        seq!['&', 'l', 't', ';']
    } else if c == '>' {
        seq!['&', 'g', 't', ';']
    } else if c == '"' {
        seq!['&', 'q', 'u', 'o', 't', ';']
    } else if c == '\'' {
        seq!['&', 'a', 'p', 'o', 's', ';']
    } else if c == '&' {
        seq!['&', 'a', 'm', 'p', ';']
    } else if c == '\n' {
        seq!['&', '#', 'x', 'A', ';']
    } else if c == '\r' {
        seq!['&', '#', 'x', 'D', ';']
    } else {
        seq![c]
    }
}

/// `s` with each character escaped for an XML attribute value.
pub open spec fn attribute_escaped(s: Seq<char>) -> Seq<char>
    decreases s.len(),
{
    if s.len() == 0 {
        Seq::empty()
    } else {
        attribute_escaped(s.drop_last()) + escaped_char(s.last())
    }
}

/// `xml::escape::escape_str_attribute`: replaces `<`, `>`, `"`, `'`, `&`, line
/// feed and carriage return by their character references and keeps every
/// other character, as its source and documentation show.
#[verifier::external_body]
fn escape_attribute(s: &str) -> (r: String)
    ensures
        r@ == attribute_escaped(s@),
{
    xml::escape::escape_str_attribute(s).to_string()
}

/// The start of the `SetAVTransportURI` arguments, before the address.
pub const TRANSPORT_URI_HEAD: &'static str = "\n        <InstanceID>0</InstanceID>\n        <CurrentURI>";

/// Between the address and the metadata.
pub const TRANSPORT_URI_MIDDLE: &'static str = "</CurrentURI>\n        <CurrentURIMetaData>";

/// After the metadata.
pub const TRANSPORT_URI_TAIL: &'static str = "</CurrentURIMetaData>\n        ";

/// The arguments of `Play`, also sent with `GetTransportInfo`.
pub const PAYLOAD_PLAY: &'static str = "\n    <InstanceID>0</InstanceID>\n    <Speed>1</Speed>\n";

/// The `SetAVTransportURI` arguments for a video at `url` of type `kind`: the
/// address, and its DIDL-Lite description escaped for an attribute.
pub open spec fn transport_uri_payload(url: Seq<char>, kind: Seq<char>) -> Seq<char> {
    TRANSPORT_URI_HEAD@ + url + TRANSPORT_URI_MIDDLE@ + attribute_escaped(didl_metadata(url, kind))
        + TRANSPORT_URI_TAIL@
}

/// The `SetAVTransportURI` arguments for `media`.
pub fn transport_uri_arguments(media: &Media) -> (p: String)
    ensures
        p@ == transport_uri_payload(media@.video_url, media@.video_type),
{
    let described = metadata(media);
    let escaped = escape_attribute(described.as_str());
    let mut p = String::new();
    p.append(TRANSPORT_URI_HEAD);
    p.append(media.video_url());
    p.append(TRANSPORT_URI_MIDDLE);
    p.append(escaped.as_str());
    p.append(TRANSPORT_URI_TAIL);
    p
}

/// The value of `CurrentTransportState` that ends playback.
pub open spec fn stopped_state() -> Seq<char> {
    seq!['S', 'T', 'O', 'P', 'P', 'E', 'D']
}

/// Playback is over when the renderer reports no transport state, or `STOPPED`.
pub open spec fn playback_over(state: Option<Seq<char>>) -> bool {
    match state {
        None => true,
        Some(s) => s == stopped_state(),
    }
}

/// Only `STOPPED`, or no state at all, ends the watching of an episode: any
/// other reported state (`PLAYING`, `PAUSED_PLAYBACK`, `TRANSITIONING`, ...)
/// keeps the session watching.
pub proof fn law_only_stopped_ends(state: Seq<char>)
    ensures
        playback_over(Some(state)) <==> state == seq!['S', 'T', 'O', 'P', 'P', 'E', 'D'],
        next_phase(PlayPhase::Watching, false, Some(state)) == PlayPhase::Finished <==> state
            == seq!['S', 'T', 'O', 'P', 'P', 'E', 'D'],
        state != seq!['S', 'T', 'O', 'P', 'P', 'E', 'D'] ==> next_phase(
            PlayPhase::Watching,
            false,
            Some(state),
        ) == PlayPhase::Watching,
        next_phase(PlayPhase::Watching, false, None) == PlayPhase::Finished,
{
    assert(stopped_state() =~= seq!['S', 'T', 'O', 'P', 'P', 'E', 'D']);
}

/// Whether the transport state that `GetTransportInfo` reported ends playback.
pub fn is_stopped(state: Option<&String>) -> (b: bool)
    ensures
        b == playback_over(match state {
            Some(s) => Some(s@),
            None => None,
        }),
{
    match state {
        None => true,
        Some(s) => {
            let cs = chars_of(s.as_str());
            let stop: Vec<char> = vec!['S', 'T', 'O', 'P', 'P', 'E', 'D'];
            assert(stop@ =~= stopped_state());
            chars_equal(&cs, &stop)
        },
    }
}

/// The steps of a playback session on a renderer.
#[derive(Debug, Clone, Copy, PartialEq, Eq, Structural)]
pub enum PlayPhase {
    /// Sending the video's address (`SetAVTransportURI`).
    SettingUri,
    /// Asking the renderer to play (`Play`).
    Starting,
    /// Polling the transport state (`GetTransportInfo`) until playback ends.
    Watching,
    /// Playback is over.
    Finished,
}

/// The request that a phase sends to the renderer.
#[derive(Debug, Clone, Copy, PartialEq, Eq, Structural)]
pub enum PlayRequest {
    SetAvTransportUri,
    Play,
    GetTransportInfo,
}

/// What the renderer answered to a request.
pub enum PlayReply {
    /// The request failed.
    Failed,
    /// The request succeeded; the answer's `CurrentTransportState`, if it has one.
    Answered(Option<String>),
}

/// The request to send in `phase` (none once playback is over).
pub open spec fn request_spec(phase: PlayPhase) -> Option<PlayRequest> {
    match phase {
        PlayPhase::SettingUri => Some(PlayRequest::SetAvTransportUri),
        PlayPhase::Starting => Some(PlayRequest::Play),
        PlayPhase::Watching => Some(PlayRequest::GetTransportInfo),
        PlayPhase::Finished => None,
    }
}

/// The phase after `phase` got an answer: any failure starts the session over
/// from the address; a successful step moves on; watching ends when the state
/// says playback is over.
pub open spec fn next_phase(phase: PlayPhase, failed: bool, state: Option<Seq<char>>) -> PlayPhase {
    match phase {
        PlayPhase::Finished => PlayPhase::Finished,
        _ => if failed {
            PlayPhase::SettingUri
        } else {
            match phase {
                PlayPhase::SettingUri => PlayPhase::Starting,
                PlayPhase::Starting => PlayPhase::Watching,
                _ => if playback_over(state) {
                    PlayPhase::Finished
                } else {
                    PlayPhase::Watching
                },
            }
        },
    }
}

/// The request to send in `phase`.
pub fn request_for(phase: PlayPhase) -> (r: Option<PlayRequest>)
    ensures
        r == request_spec(phase),
{
    match phase {
        PlayPhase::SettingUri => Some(PlayRequest::SetAvTransportUri),
        PlayPhase::Starting => Some(PlayRequest::Play),
        PlayPhase::Watching => Some(PlayRequest::GetTransportInfo),
        PlayPhase::Finished => None,
    }
}

/// The renderer action that carries `request`.
pub fn action_name(request: PlayRequest) -> (name: &'static str)
    ensures
        name@ == (match request {
            PlayRequest::SetAvTransportUri => "SetAVTransportURI"@,
            PlayRequest::Play => "Play"@,
            PlayRequest::GetTransportInfo => "GetTransportInfo"@,
        }),
{
    match request {
        PlayRequest::SetAvTransportUri => "SetAVTransportURI",
        PlayRequest::Play => "Play",
        PlayRequest::GetTransportInfo => "GetTransportInfo",
    }
}

/// The arguments sent with `request` when casting `media`.
pub fn request_arguments(request: PlayRequest, media: &Media) -> (p: String)
    ensures
        p@ == (match request {
            PlayRequest::SetAvTransportUri => transport_uri_payload(
                media@.video_url,
                media@.video_type,
            ),
            _ => PAYLOAD_PLAY@,
        }),
{
    match request {
        PlayRequest::SetAvTransportUri => transport_uri_arguments(media),
        _ => {
            let mut p = String::new();
            p.append(PAYLOAD_PLAY);
            p
        },
    }
}

/// Why one attempt at playing ended early: the request that failed, as
/// `crab_dlna` reports it (`DLNASetAVTransportURIError` for the address,
/// `DLNAPlayError` for `Play` and for the polls).
#[derive(Debug, Clone, Copy, PartialEq, Eq, Structural)]
pub enum AttemptError {
    SetAvTransportUri,
    Play,
}

/// Where one attempt at playing stands after an answer.
#[derive(Debug, Clone, Copy, PartialEq, Eq, Structural)]
pub enum AttemptStep {
    /// Go on in this phase (the attempt is over once it is `Finished`).
    Next(PlayPhase),
    /// The attempt ends with this error; it sends no further request.
    Failed(AttemptError),
}

/// What one attempt does after `phase` got an answer: a failed request ends
/// it, with the address error when the address was being sent and the play
/// error otherwise; a successful one moves on as `next_phase` says.
pub open spec fn attempt_spec(phase: PlayPhase, failed: bool, state: Option<Seq<char>>) -> AttemptStep {
    if failed && phase != PlayPhase::Finished {
        AttemptStep::Failed(
            if phase == PlayPhase::SettingUri {
                AttemptError::SetAvTransportUri
            } else {
                AttemptError::Play
            },
        )
    } else {
        AttemptStep::Next(next_phase(phase, failed, state))
    }
}

/// The step of one attempt after `phase` got `reply`.
pub fn attempt_step(phase: PlayPhase, reply: &PlayReply) -> (step: AttemptStep)
    ensures
        step == (match reply {
            PlayReply::Failed => attempt_spec(phase, true, None),
            PlayReply::Answered(state) => attempt_spec(
                phase,
                false,
                match state {
                    Some(s) => Some(s@),
                    None => None,
                },
            ),
        }),
{
    match reply {
        PlayReply::Failed => match phase {
            PlayPhase::Finished => AttemptStep::Next(PlayPhase::Finished),
            PlayPhase::SettingUri => AttemptStep::Failed(AttemptError::SetAvTransportUri),
            _ => AttemptStep::Failed(AttemptError::Play),
        },
        PlayReply::Answered(_) => AttemptStep::Next(after_reply(phase, reply)),
    }
}

/// Playing retries failed attempts: where an attempt fails, the session
/// starts again from the address, and otherwise it goes where the attempt
/// goes.
pub proof fn law_attempt_retry(phase: PlayPhase, failed: bool, state: Option<Seq<char>>)
    ensures
        attempt_spec(phase, failed, state) matches AttemptStep::Failed(_) ==> next_phase(
            phase,
            failed,
            state,
        ) == PlayPhase::SettingUri,
        attempt_spec(phase, failed, state) matches AttemptStep::Next(p) ==> next_phase(
            phase,
            failed,
            state,
        ) == p,
        phase == PlayPhase::SettingUri && failed ==> attempt_spec(phase, failed, state)
            == AttemptStep::Failed(AttemptError::SetAvTransportUri),
        (phase == PlayPhase::Starting || phase == PlayPhase::Watching) && failed ==> attempt_spec(
            phase,
            failed,
            state,
        ) == AttemptStep::Failed(AttemptError::Play),
{
}

/// Whether an answer to `GetTransportInfo` says that playback is over: a
/// failed query says it is not over yet.
pub fn reply_ends_playback(reply: &PlayReply) -> (b: bool)
    ensures
        b == (match reply {
            PlayReply::Failed => false,
            PlayReply::Answered(state) => playback_over(
                match state {
                    Some(s) => Some(s@),
                    None => None,
                },
            ),
        }),
{
    match reply {
        PlayReply::Failed => false,
        PlayReply::Answered(state) => is_stopped(state.as_ref()),
    }
}

/// The phase after `phase` got `reply`.
pub fn after_reply(phase: PlayPhase, reply: &PlayReply) -> (next: PlayPhase)
    ensures
        next == (match reply {
            PlayReply::Failed => next_phase(phase, true, None),
            PlayReply::Answered(state) => next_phase(
                phase,
                false,
                match state {
                    Some(s) => Some(s@),
                    None => None,
                },
            ),
        }),
{
    match phase {
        PlayPhase::Finished => PlayPhase::Finished,
        _ => match reply {
            PlayReply::Failed => PlayPhase::SettingUri,
            PlayReply::Answered(state) => match phase {
                PlayPhase::SettingUri => PlayPhase::Starting,
                PlayPhase::Starting => PlayPhase::Watching,
                _ => if is_stopped(state.as_ref()) {
                    PlayPhase::Finished
                } else {
                    PlayPhase::Watching
                },
            },
        },
    }
}

/// A media's type never holds a dot, and an address without a dot is its own
/// type.
pub proof fn law_media_type(url: Seq<char>)
    ensures
        !last_piece(url, '.').contains('.'),
        !url.contains('.') ==> last_piece(url, '.') == url,
{
    lemma_last_piece(url, '.');
}

/// A character that may not stand unescaped in an attribute value.
pub open spec fn attribute_special(c: char) -> bool {
    c == '<' || c == '>' || c == '"' || c == '\'' || c == '\n' || c == '\r'
}

/// Escaped text holds none of `<`, `>`, `"`, `'`, line feed or carriage return,
/// so it can stand inside a quoted attribute value on one line.
pub proof fn law_escaped_attribute(s: Seq<char>)
    ensures
        forall|i: int|
            0 <= i < attribute_escaped(s).len() ==> !attribute_special(
                #[trigger] attribute_escaped(s)[i],
            ),
    decreases s.len(),
{
    if s.len() > 0 {
        law_escaped_attribute(s.drop_last());
        let a = attribute_escaped(s.drop_last());
        let e = escaped_char(s.last());
        assert forall|i: int|
            0 <= i < attribute_escaped(s).len() implies !attribute_special(
                #[trigger] attribute_escaped(s)[i],
            ) by {
            if i >= a.len() {
                assert(attribute_escaped(s)[i] == e[i - a.len()]);
            } else {
                assert(attribute_escaped(s)[i] == a[i]);
            }
        }
    }
}

/// A playback session never ends unless the renderer was being watched and
/// reported the end of playback; any failure before the end starts it over
/// from the address; once over it stays over.
pub proof fn law_play_session(phase: PlayPhase, failed: bool, state: Option<Seq<char>>)
    ensures
        next_phase(phase, failed, state) == PlayPhase::Finished ==> phase == PlayPhase::Finished
            || (phase == PlayPhase::Watching && !failed && playback_over(state)),
        phase != PlayPhase::Finished && failed ==> next_phase(phase, failed, state)
            == PlayPhase::SettingUri,
        phase == PlayPhase::Finished ==> next_phase(phase, failed, state) == PlayPhase::Finished,
        request_spec(phase) is None <==> phase == PlayPhase::Finished,
{
}

} // verus!
