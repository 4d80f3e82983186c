//! What a camera session computes on its way: where to connect and with
//! which credentials, which track to play, what an item of the stream is
//! good for, and the packets of an access unit that go to the decoder.

use crate::reframe::{convert_h264, framing_of, reframe_from, FramingError};
use crate::text::chars_of;
use openh264::nal_units;
use url::Url;
use vstd::prelude::*;
use vstd::string::*;

verus! {

/// Why a session could not be set up or could not go on.
#[derive(Debug, Clone, Copy, PartialEq, Eq, Structural)]
pub enum SessionError {
    /// The address of the camera is no URL with a host.
    InvalidUri,
    /// The camera offers no H.264 video track.
    NoVideoTrack,
    /// The stream handed out something that is no video frame.
    NotAVideoFrame,
    /// The stream has ended.
    NoFrames,
}

/// The name and password that a camera asks for.
#[derive(Debug)]
pub struct Credentials {
    pub username: String,
    pub password: String,
}

/// An address taken apart: the credentials that it carries, and the
/// address without them.
#[derive(Debug)]
pub struct UriParts {
    pub username: String,
    pub password: Option<String>,
    pub location: String,
}

/// Where a session connects to, and as whom.
#[derive(Debug)]
pub struct ConnectionTarget {
    pub url: String,
    pub credentials: Option<Credentials>,
}

/// `url::Url`: a parsed address. Nothing of its inside is seen here.
#[verifier::external_type_specification]
#[verifier::external_body]
pub struct ExUrl(url::Url);

/// `url::ParseError`: why an address did not parse. It is only carried.
#[verifier::external_type_specification]
#[verifier::external_body]
pub struct ExParseError(url::ParseError);

/// What a parsed address holds: its text as the `url` crate writes it.
pub uninterp spec fn url_text(url: Url) -> Seq<char>;

/// The text of the address that `Url::parse` makes of `uri`, or nothing
/// where `uri` does not parse.
pub uninterp spec fn parsed_text(uri: Seq<char>) -> Option<Seq<char>>;

/// The user name that `Url::username` reads in the address with the text
/// `text`.
pub uninterp spec fn text_username(text: Seq<char>) -> Seq<char>;

/// The password that `Url::password` reads in the address with the text
/// `text`.
pub uninterp spec fn text_password(text: Seq<char>) -> Option<Seq<char>>;

/// The text of the address after `Url::set_username` has put `username`
/// into the address with the text `text`, or nothing where it refuses.
pub uninterp spec fn text_with_username(text: Seq<char>, username: Seq<char>) -> Option<
    Seq<char>,
>;

/// The text of the address after `Url::set_password` has put `password`
/// into the address with the text `text`, or nothing where it refuses.
pub uninterp spec fn text_with_password(text: Seq<char>, password: Option<Seq<char>>) -> Option<
    Seq<char>,
>;

/// A password as plain text.
pub open spec fn password_view(password: Option<String>) -> Option<Seq<char>> {
    match password {
        Some(w) => Some(w@),
        None => None,
    }
}

/// `Url::parse`: the parsed address, whose text is a function of `uri`
/// alone, or the error of the parser.
#[verifier::external_body]
fn url_parse(uri: &str) -> (parsed: Result<Url, url::ParseError>)
    ensures
        match parsed {
            Ok(url) => parsed_text(uri@) == Some(url_text(url)),
            Err(_) => parsed_text(uri@) is None,
        },
{
    Url::parse(uri)
}

/// `Url::username`: the user name of the address, which the text of the
/// address decides.
#[verifier::external_body]
fn url_username(url: &Url) -> (username: String)
    ensures
        username@ == text_username(url_text(*url)),
{
    url.username().to_string()
}

/// `Url::password`: the password of the address, if it has one, which the
/// text of the address decides.
#[verifier::external_body]
fn url_password(url: &Url) -> (password: Option<String>)
    ensures
        password_view(password) == text_password(url_text(*url)),
{
    url.password().map(|w| w.to_string())
}

/// `Url::set_username`: puts `username` into the address and says whether
/// the address took it. An address that refuses stays as it was. After the
/// empty name was taken, the address has the empty user name.
#[verifier::external_body]
fn url_set_username(url: &mut Url, username: &str) -> (taken: bool)
    ensures
        taken <==> text_with_username(url_text(*old(url)), username@) is Some,
        taken ==> Some(url_text(*final(url))) == text_with_username(
            url_text(*old(url)),
            username@,
        ),
        !taken ==> url_text(*final(url)) == url_text(*old(url)),
        taken && username@.len() == 0 ==> text_username(url_text(*final(url))).len() == 0,
{
    url.set_username(username).is_ok()
}

/// `Url::set_password`: puts `password` into the address, or takes the
/// password out of it where `password` is nothing, and says whether the
/// address took that. An address that refuses stays as it was. The user
/// name is not changed, and after the password was taken out the address
/// has none.
#[verifier::external_body]
fn url_set_password(url: &mut Url, password: Option<&str>) -> (taken: bool)
    ensures
        taken <==> text_with_password(
            url_text(*old(url)),
            match password {
                Some(w) => Some(w@),
                None => None,
            },
        ) is Some,
        taken ==> Some(url_text(*final(url))) == text_with_password(
            url_text(*old(url)),
            match password {
                Some(w) => Some(w@),
                None => None,
            },
        ),
        !taken ==> url_text(*final(url)) == url_text(*old(url)),
        taken ==> text_username(url_text(*final(url))) == text_username(url_text(*old(url))),
        taken && password is None ==> text_password(url_text(*final(url))) is None,
{
    url.set_password(password).is_ok()
}

/// `Url::as_str`: the text of the address.
#[verifier::external_body]
fn url_to_text(url: &Url) -> (text: String)
    ensures
        text@ == url_text(*url),
{
    url.as_str().to_string()
}

/// The text of an address after its user name and its password were taken
/// out, or nothing where the address has no place for them.
pub open spec fn without_credentials(text: Seq<char>) -> Option<Seq<char>> {
    match text_with_username(text, Seq::empty()) {
        Some(unnamed) => text_with_password(unnamed, None),
        None => None,
    }
}

/// The parts of the address `uri`: the user name and the password that it
/// carries, and its text without them. There are none where `uri` does not
/// parse, or has no place for credentials.
pub open spec fn uri_parts(uri: Seq<char>) -> Option<(Seq<char>, Option<Seq<char>>, Seq<char>)> {
    match parsed_text(uri) {
        Some(text) => match without_credentials(text) {
            Some(location) => Some((text_username(text), text_password(text), location)),
            None => None,
        },
        None => None,
    }
}

/// The address carries no credentials: neither a user name nor a password.
pub open spec fn carries_no_credentials(text: Seq<char>) -> bool {
    text_username(text).len() == 0 && text_password(text) is None
}

/// Takes an address apart: it is parsed, its user name and password are
/// read, and both are then taken out of it.
pub fn parse_uri(uri: &str) -> (parts: Option<UriParts>)
    ensures
        match parts {
            Some(p) => uri_parts(uri@) == Some((p.username@, password_view(p.password), p.location@))
                && carries_no_credentials(p.location@),
            None => uri_parts(uri@) is None,
        },
{
    let mut url = match url_parse(uri) {
        Ok(url) => url,
        Err(_) => {
            return None;
        },
    };
    let username = url_username(&url);
    let password = url_password(&url);
    proof {
        reveal_strlit("");
        assert(""@ =~= Seq::<char>::empty());
    }
    if !url_set_username(&mut url, "") {
        return None;
    }
    if !url_set_password(&mut url, None) {
        return None;
    }
    let location = url_to_text(&url);
    Some(UriParts { username, password, location })
}

/// The target that the parts of an address give.
pub open spec fn target_matches(
    target: ConnectionTarget,
    username: Seq<char>,
    password: Option<Seq<char>>,
    location: Seq<char>,
) -> bool {
    &&& target.url@ == location
    &&& match target.credentials {
        Some(c) => username.len() > 0 && c.username@ == username && c.password@ == (match password {
            Some(w) => w,
            None => Seq::empty(),
        }),
        None => username.len() == 0,
    }
}

/// The target of a connection from the parts of an address: the address
/// without credentials, and the credentials if the address names a user.
/// A user without a password has the empty password.
pub fn connection_target(parts: UriParts) -> (target: ConnectionTarget)
    ensures
        target_matches(target, parts.username@, password_view(parts.password), parts.location@),
{
    let UriParts { username, password, location } = parts;
    let credentials = if username.as_str().unicode_len() > 0 {
        let password = match password {
            Some(w) => w,
            None => String::new(),
        };
        Some(Credentials { username, password })
    } else {
        None
    };
    ConnectionTarget { url: location, credentials }
}

/// Where the session of the camera at `uri` connects to, and as whom. The
/// address to connect to carries no credentials; they are handed over
/// beside it. An address that does not parse, or that has no place for
/// credentials, is refused.
pub fn connect_to(uri: &str) -> (result: Result<ConnectionTarget, SessionError>)
    ensures
        match result {
            Ok(target) => carries_no_credentials(target.url@) && match uri_parts(uri@) {
                Some((username, password, location)) => target_matches(
                    target,
                    username,
                    password,
                    location,
                ),
                None => false,
            },
            Err(e) => e == SessionError::InvalidUri && uri_parts(uri@) is None,
        },
{
    match parse_uri(uri) {
        Some(parts) => Ok(connection_target(parts)),
        None => Err(SessionError::InvalidUri),
    }
}

/// A track that a camera offers.
#[derive(Debug)]
pub struct TrackInfo {
    pub media: String,
    pub encoding_name: String,
}

/// The encoding name of H.264, in capitals or not.
pub open spec fn is_h264(name: Seq<char>) -> bool {
    name == seq!['H', '2', '6', '4'] || name == seq!['h', '2', '6', '4']
}

/// The track carries H.264 video.
pub open spec fn is_video_track(track: TrackInfo) -> bool {
    track.media@ == "video"@ && is_h264(track.encoding_name@)
}

fn names_h264(name: &str) -> (h264: bool)
    ensures
        h264 == is_h264(name@),
{
    let chars = chars_of(name);
    let h264 = chars.len() == 4 && (chars[0] == 'H' || chars[0] == 'h') && chars[1] == '2'
        && chars[2] == '6' && chars[3] == '4';
    proof {
        if h264 {
            assert(name@ =~= seq!['H', '2', '6', '4'] || name@ =~= seq!['h', '2', '6', '4']);
        }
    }
    h264
}

/// The first track that carries H.264 video.
pub fn select_video_track(tracks: &Vec<TrackInfo>) -> (result: Result<usize, SessionError>)
    ensures
        match result {
            Ok(i) => i < tracks@.len() && is_video_track(tracks@[i as int]) && forall|j: int|
                0 <= j < i ==> !is_video_track(#[trigger] tracks@[j]),
            Err(e) => e == SessionError::NoVideoTrack && forall|j: int|
                0 <= j < tracks@.len() ==> !is_video_track(#[trigger] tracks@[j]),
        },
{
    let video = String::from_str("video");
    let mut i: usize = 0;
    while i < tracks.len()
        invariant
            0 <= i <= tracks@.len(),
            video@ == "video"@,
            forall|j: int| 0 <= j < i ==> !is_video_track(#[trigger] tracks@[j]),
        decreases tracks@.len() - i,
    {
        if tracks[i].media == video && names_h264(tracks[i].encoding_name.as_str()) {
            return Ok(i);
        }
        i = i + 1;
    }
    Err(SessionError::NoVideoTrack)
}

/// What the stream handed out.
#[derive(Debug, Clone, Copy, PartialEq, Eq, Structural)]
pub enum StreamItem {
    /// An encoded picture.
    VideoFrame,
    /// Anything else: audio, a message, a report.
    Other,
}

/// Whether the session goes on with what the stream handed out: only a
/// video frame will do, and the end of the stream ends the session.
pub fn capture_frame(item: Option<StreamItem>) -> (result: Result<(), SessionError>)
    ensures
        result == match item {
            Some(StreamItem::VideoFrame) => Ok::<(), SessionError>(()),
            Some(StreamItem::Other) => Err(SessionError::NotAVideoFrame),
            None => Err(SessionError::NoFrames),
        },
{
    match item {
        Some(StreamItem::VideoFrame) => Ok(()),
        Some(StreamItem::Other) => Err(SessionError::NotAVideoFrame),
        None => Err(SessionError::NoFrames),
    }
}

/// The packets that `openh264::nal_units` cuts a start-code framed stream
/// into.
pub uninterp spec fn nal_unit_split(stream: Seq<u8>) -> Seq<Seq<u8>>;

/// The contents of a list of packets.
pub open spec fn packet_views(packets: Seq<Vec<u8>>) -> Seq<Seq<u8>> {
    Seq::new(packets.len(), |i: int| packets[i]@)
}

/// `openh264::nal_units`: the packets of the stream, each copied out of
/// it, in their order. They are a function of the bytes alone.
#[verifier::external_body]
fn split_nal_units(stream: &[u8]) -> (packets: Vec<Vec<u8>>)
    ensures
        packet_views(packets@) == nal_unit_split(stream@),
{
    nal_units(stream).map(|packet| packet.to_vec()).collect()
}

/// Makes an access unit ready for the decoder: its length prefixes are
/// replaced by start codes in place, and the packets of the result are
/// cut out. A unit that is not well framed gives no packets.
pub fn decoder_packets(data: &mut [u8]) -> (result: Result<Vec<Vec<u8>>, FramingError>)
    ensures
        final(data)@ == reframe_from(old(data)@, 0),
        match result {
            Ok(packets) => framing_of(old(data)@) == Ok::<(), FramingError>(()) && packet_views(
                packets@,
            ) == nal_unit_split(final(data)@),
            Err(e) => framing_of(old(data)@) == Err::<(), FramingError>(e),
        },
{
    match convert_h264(data) {
        Ok(()) => Ok(split_nal_units(data)),
        Err(e) => Err(e),
    }
}

} // verus!
