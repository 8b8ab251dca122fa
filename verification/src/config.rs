use vstd::prelude::*;
use vstd::string::StringExecFns;

verus! {

/// Runtime options: the two listen ports, the parent directory for
/// per-stream output, the concurrent publisher cap, and the segmenter
/// parameters.
#[derive(Clone, Debug)]
pub struct Config {
    pub rtmp_port: u16,
    pub http_port: u16,
    pub streams_dir: String,
    pub max_streams: usize,
    pub segment_duration: u32,
    pub playlist_size: usize,
}

impl Config {
    /// The output directory for one stream key, under `streams_dir`.
    pub fn stream_dir(&self, stream_key: &str) -> (r: String)
        ensures
            r@ == self.streams_dir@ + "/"@ + stream_key@,
    {
        let mut r = self.streams_dir.clone();
        r.append("/");
        r.append(stream_key);
        r
    }

    /// The rolling index file inside the stream's directory.
    pub fn playlist_path(&self, stream_key: &str) -> (r: String)
        ensures
            r@ == self.streams_dir@ + "/"@ + stream_key@ + "/playlist.m3u8"@,
    {
        let mut r = self.stream_dir(stream_key);
        r.append("/playlist.m3u8");
        r
    }
}

} // verus!
