//! Plain data carried between the coordination core and its collaborators:
//! display-update payloads, broker configuration, discovered devices and
//! cache statistics.

use vstd::prelude::*;
use vstd::string::StringExecFns;

verus! {

/// How the process was asked to start.
#[derive(Debug, Clone, Copy, PartialEq, Eq, Structural)]
pub enum AutoStartMode {
    Disabled,
    Controller,
    Display,
}

/// The startup mode named by an environment token or a command-line flag:
/// the environment wins, then the first matching flag; anything else means
/// no auto-start. Tokens are compared as bytes.
pub open spec fn spec_auto_start_mode(env_token: Option<Seq<u8>>, args: Seq<Seq<u8>>) -> AutoStartMode {
    if env_token == Some(token_controller()) {
        AutoStartMode::Controller
    } else if env_token == Some(token_display()) {
        AutoStartMode::Display
    } else {
        spec_mode_from_args(args)
    }
}

/// The startup mode named by the first recognised command-line flag.
pub open spec fn spec_mode_from_args(args: Seq<Seq<u8>>) -> AutoStartMode
    decreases args.len(),
{
    if args.len() == 0 {
        AutoStartMode::Disabled
    } else if args.first() == flag_controller() {
        AutoStartMode::Controller
    } else if args.first() == flag_display() {
        AutoStartMode::Display
    } else {
        spec_mode_from_args(args.drop_first())
    }
}

/// The environment token "controller".
pub open spec fn token_controller() -> Seq<u8> {
    seq![0x63u8, 0x6Fu8, 0x6Eu8, 0x74u8, 0x72u8, 0x6Fu8, 0x6Cu8, 0x6Cu8, 0x65u8, 0x72u8]
}

/// The environment token "display".
pub open spec fn token_display() -> Seq<u8> {
    seq![0x64u8, 0x69u8, 0x73u8, 0x70u8, 0x6Cu8, 0x61u8, 0x79u8]
}

/// The flag "--controller".
pub open spec fn flag_controller() -> Seq<u8> {
    seq![0x2Du8, 0x2Du8] + token_controller()
}

/// The flag "--display".
pub open spec fn flag_display() -> Seq<u8> {
    seq![0x2Du8, 0x2Du8] + token_display()
}

fn token_controller_bytes() -> (r: Vec<u8>)
    ensures
        r@ == token_controller(),
{
    let mut v: Vec<u8> = Vec::new();
    v.push(0x63);
    v.push(0x6F);
    v.push(0x6E);
    v.push(0x74);
    v.push(0x72);
    v.push(0x6F);
    v.push(0x6C);
    v.push(0x6C);
    v.push(0x65);
    v.push(0x72);
    proof {
        assert(v@ =~= token_controller());
    }
    v
}

fn token_display_bytes() -> (r: Vec<u8>)
    ensures
        r@ == token_display(),
{
    let mut v: Vec<u8> = Vec::new();
    v.push(0x64);
    v.push(0x69);
    v.push(0x73);
    v.push(0x70);
    v.push(0x6C);
    v.push(0x61);
    v.push(0x79);
    proof {
        assert(v@ =~= token_display());
    }
    v
}

fn with_flag_dashes(token: Vec<u8>) -> (r: Vec<u8>)
    ensures
        r@ == seq![0x2Du8, 0x2Du8] + token@,
{
    let mut v: Vec<u8> = Vec::new();
    v.push(0x2D);
    v.push(0x2D);
    let mut rest = token;
    v.append(&mut rest);
    proof {
        assert(v@ =~= seq![0x2Du8, 0x2Du8] + token@);
    }
    v
}

/// Decide the auto-start mode from the environment token and the
/// command-line arguments, both as raw bytes.
pub fn parse_auto_start_mode(env_token: &Option<Vec<u8>>, args: &Vec<Vec<u8>>) -> (r: AutoStartMode)
    ensures
        r == spec_auto_start_mode(
            match env_token {
                Some(t) => Some(t@),
                None => None,
            },
            args.deep_view()),
{
    let ctrl = token_controller_bytes();
    let disp = token_display_bytes();
    match env_token {
        Some(t) => {
            if crate::bytes::bytes_eq(t.as_slice(), ctrl.as_slice()) {
                return AutoStartMode::Controller;
            }
            if crate::bytes::bytes_eq(t.as_slice(), disp.as_slice()) {
                return AutoStartMode::Display;
            }
        },
        None => {
        },
    }
    let flag_ctrl = with_flag_dashes(ctrl);
    let flag_disp = with_flag_dashes(disp);
    let ghost av = args.deep_view();
    let mut i: usize = 0;
    proof {
        assert(av.len() == args@.len());
        assert(av.subrange(0, av.len() as int) =~= av);
    }
    while i < args.len()
        invariant
            0 <= i <= args@.len(),
            av == args.deep_view(),
            av.len() == args@.len(),
            flag_ctrl@ == flag_controller(),
            flag_disp@ == flag_display(),
            spec_mode_from_args(av) == spec_mode_from_args(av.subrange(i as int, av.len() as int)),
            match env_token {
                Some(t) => t@ != token_controller() && t@ != token_display(),
                None => true,
            },
        decreases args@.len() - i,
    {
        let a = &args[i];
        proof {
            assert(av.subrange(i as int, av.len() as int).first() == av[i as int]);
            assert(av.subrange(i as int, av.len() as int).drop_first()
                =~= av.subrange(i as int + 1, av.len() as int));
            assert(av[i as int] == args@[i as int]@);
        }
        if crate::bytes::bytes_eq(a.as_slice(), flag_ctrl.as_slice()) {
            return AutoStartMode::Controller;
        }
        if crate::bytes::bytes_eq(a.as_slice(), flag_disp.as_slice()) {
            return AutoStartMode::Display;
        }
        i = i + 1;
    }
    proof {
        assert(av.subrange(av.len() as int, av.len() as int) =~= Seq::<Seq<u8>>::empty());
    }
    AutoStartMode::Disabled
}

/// A display device found on the local network.
#[derive(Debug, Clone)]
pub struct DiscoveredDevice {
    pub name: String,
    pub host: String,
    pub port: u16,
    pub service_type: String,
    /// Per-display identifier from the advertisement metadata.
    pub display_id: String,
    /// Device identifier, kept for grouping and older displays.
    pub device_id: Option<String>,
    /// Human-readable name from the advertisement metadata.
    pub display_name: Option<String>,
    /// Resolution from the advertisement metadata.
    pub width: Option<u32>,
    pub height: Option<u32>,
    /// Platform information, such as the operating system.
    pub platform: Option<String>,
}

/// Configuration for spawning a broker server.
#[derive(Debug, Clone)]
pub struct NatsConfig {
    /// Server port; 0 asks the system for one.
    pub server_port: u16,
    /// Cluster name for mesh networking.
    pub cluster_name: String,
    /// Directory for stream persistence.
    pub jetstream_dir: String,
}

impl Default for NatsConfig {
    fn default() -> (r: Self)
        ensures
            r.server_port == 0,
            r.cluster_name@ == "mobile_worship"@,
            r.jetstream_dir@ == "./nats-jetstream"@,
    {
        NatsConfig {
            server_port: 0,
            cluster_name: String::from_str("mobile_worship"),
            jetstream_dir: String::from_str("./nats-jetstream"),
        }
    }
}

/// A broker node discovered on the local network.
#[derive(Debug, Clone)]
pub struct DiscoveredNode {
    pub id: String,
    pub name: String,
    pub host: String,
    pub port: u16,
    pub platform: String,
}

/// Lyrics update sent to displays.
#[derive(Debug, Clone)]
pub struct LyricsMessage {
    pub church_id: String,
    pub event_id: String,
    pub song_id: String,
    pub title: String,
    pub lyrics: String,
    pub background_url: Option<String>,
    pub timestamp: i64,
}

/// Slide navigation update sent to displays.
#[derive(Debug, Clone)]
pub struct SlideMessage {
    pub church_id: String,
    pub event_id: String,
    pub song_id: String,
    pub slide_index: usize,
    pub timestamp: i64,
}

/// Tracking record for one connected display.
#[derive(Debug, Clone)]
pub struct DisplayState {
    pub display_id: String,
    pub name: String,
    pub connected: bool,
    pub last_heartbeat: i64,
    pub current_slide: Option<SlideMessage>,
}

/// Real-time display update, tagged for the text channel.
#[derive(Debug, Clone)]
pub enum WsMessage {
    Lyrics(LyricsData),
    Slide(SlideData),
    Ping,
}

/// Data for a lyrics display update. A missing target means every display
/// processes the message.
#[derive(Debug, Clone)]
pub struct LyricsData {
    pub target_display_id: Option<String>,
    pub church_id: String,
    pub event_id: String,
    pub song_id: String,
    pub title: String,
    pub lyrics: String,
    pub background_url: Option<String>,
    pub timestamp: i64,
}

/// Data for a slide navigation update. A missing target means every
/// display processes the message.
#[derive(Debug, Clone)]
pub struct SlideData {
    pub target_display_id: Option<String>,
    pub church_id: String,
    pub event_id: String,
    pub song_id: String,
    pub slide_index: usize,
    pub timestamp: i64,
}

/// Media cache statistics reported to the UI layer.
#[derive(Debug, Clone, Copy, PartialEq, Eq, Structural)]
pub struct CacheStats {
    pub entry_count: usize,
    pub total_size: u64,
    pub max_size: u64,
}

/// Assemble a lyrics update for the display channel.
pub fn make_lyrics_message(
    target_display_id: Option<String>,
    church_id: String,
    event_id: String,
    song_id: String,
    title: String,
    lyrics: String,
    background_url: Option<String>,
    timestamp: i64,
) -> (r: WsMessage)
    ensures
        r matches WsMessage::Lyrics(d) && {
            &&& match (d.target_display_id, target_display_id) {
                (Some(a), Some(b)) => a@ == b@,
                (None, None) => true,
                _ => false,
            }
            &&& d.church_id@ == church_id@
            &&& d.event_id@ == event_id@
            &&& d.song_id@ == song_id@
            &&& d.title@ == title@
            &&& d.lyrics@ == lyrics@
            &&& match (d.background_url, background_url) {
                (Some(a), Some(b)) => a@ == b@,
                (None, None) => true,
                _ => false,
            }
            &&& d.timestamp == timestamp
        },
{
    WsMessage::Lyrics(LyricsData {
        target_display_id,
        church_id,
        event_id,
        song_id,
        title,
        lyrics,
        background_url,
        timestamp,
    })
}

/// Assemble a slide navigation update for the display channel.
pub fn make_slide_message(
    target_display_id: Option<String>,
    church_id: String,
    event_id: String,
    song_id: String,
    slide_index: usize,
    timestamp: i64,
) -> (r: WsMessage)
    ensures
        r matches WsMessage::Slide(d) && {
            &&& match (d.target_display_id, target_display_id) {
                (Some(a), Some(b)) => a@ == b@,
                (None, None) => true,
                _ => false,
            }
            &&& d.church_id@ == church_id@
            &&& d.event_id@ == event_id@
            &&& d.song_id@ == song_id@
            &&& d.slide_index == slide_index
            &&& d.timestamp == timestamp
        },
{
    WsMessage::Slide(SlideData {
        target_display_id,
        church_id,
        event_id,
        song_id,
        slide_index,
        timestamp,
    })
}

} // verus!
