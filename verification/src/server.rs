use vstd::prelude::*;

verus! {

/// The RTMP listener's configuration: the TCP port it binds. The
/// accept loop around it lives outside the library.
pub struct RtmpServer {
    pub port: u16,
}

impl RtmpServer {
    pub fn new(port: u16) -> (r: Self)
        ensures
            r.port == port,
    {
        RtmpServer { port }
    }
}

/// The HTTP delivery server's configuration: its port and the
/// directory it serves. The routes and the socket loop live outside
/// the library.
pub struct HttpServer {
    pub port: u16,
    pub streams_dir: String,
}

impl HttpServer {
    pub fn new(port: u16, streams_dir: String) -> (r: Self)
        ensures
            r.port == port,
            r.streams_dir@ == streams_dir@,
    {
        HttpServer { port, streams_dir }
    }
}

} // verus!
