use streamx::chunk::MessageType;
use streamx::config::Config;
use streamx::server::{HttpServer, RtmpServer};
use streamx::session::validate_stream_key;

fn config() -> Config {
    Config {
        rtmp_port: 1935,
        http_port: 8080,
        streams_dir: String::from("/var/streams"),
        max_streams: 8,
        segment_duration: 4,
        playlist_size: 6,
    }
}

#[test]
fn stream_dir_joins_the_key() {
    let c = config();
    assert_eq!(c.stream_dir("mykey"), "/var/streams/mykey");
}

#[test]
fn playlist_path_points_into_the_stream_dir() {
    let c = config();
    assert_eq!(c.playlist_path("mykey"), "/var/streams/mykey/playlist.m3u8");
}

#[test]
fn servers_record_their_ports() {
    let r = RtmpServer::new(1935);
    assert_eq!(r.port, 1935);
    let h = HttpServer::new(8080, String::from("/var/streams"));
    assert_eq!(h.port, 8080);
    assert_eq!(h.streams_dir, "/var/streams");
}

#[test]
fn message_types_map_from_ids() {
    assert_eq!(MessageType::from(1), MessageType::SetChunkSize);
    assert_eq!(MessageType::from(2), MessageType::Abort);
    assert_eq!(MessageType::from(3), MessageType::Acknowledgement);
    assert_eq!(MessageType::from(4), MessageType::UserControl);
    assert_eq!(MessageType::from(5), MessageType::WindowAcknowledgementSize);
    assert_eq!(MessageType::from(6), MessageType::SetPeerBandwidth);
    assert_eq!(MessageType::from(8), MessageType::Audio);
    assert_eq!(MessageType::from(9), MessageType::Video);
    assert_eq!(MessageType::from(18), MessageType::Metadata);
    assert_eq!(MessageType::from(20), MessageType::Command);
    assert_eq!(MessageType::from(17), MessageType::Command);
    assert_eq!(MessageType::from(99), MessageType::Unknown);
}

#[test]
fn stream_key_rules() {
    assert!(validate_stream_key(b"mykey"));
    assert!(!validate_stream_key(b""));
    assert!(!validate_stream_key(b"a/b"));
    assert!(!validate_stream_key(b"a\\b"));
    assert!(validate_stream_key(&[b'k'; 255]));
    assert!(!validate_stream_key(&[b'k'; 256]));
}
