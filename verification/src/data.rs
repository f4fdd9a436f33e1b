//! The two documents that the pipeline moves around.
//!
//! `Status` is the bootstrap record: it lists the candidate feed URLs.
//! `Datafeed` is the payload record.  Both are passive shapes: nothing in
//! this crate reads a feed field, so values that the wire format carries
//! as floating-point numbers or timestamps are held uninterpreted, as
//! their IEEE-754 bit patterns and as ISO-8601 text.

use vstd::prelude::*;

verus! {

/// The bootstrap ("status") document: the candidate feed URLs in
/// `data.v3`, and the remaining URL categories, which this crate never
/// reads but preserves for round-trip fidelity when the document is
/// cached on disk.
#[derive(Debug)]
pub struct Status {
    pub data: StatusData,
    pub user: Vec<String>,
    pub metar: Vec<String>,
}

/// The `data` object of the bootstrap document.
#[derive(Debug)]
pub struct StatusData {
    pub v3: Vec<String>,
    pub transceivers: Vec<String>,
}

/// The mathematical content of a `Status`: each URL list as a sequence of
/// character sequences.
#[verifier::ext_equal]
pub ghost struct StatusModel {
    pub v3: Seq<Seq<char>>,
    pub transceivers: Seq<Seq<char>>,
    pub user: Seq<Seq<char>>,
    pub metar: Seq<Seq<char>>,
}

impl Status {
    /// The abstract value of this document.
    pub open spec fn model(self) -> StatusModel {
        StatusModel {
            v3: self.data.v3.deep_view(),
            transceivers: self.data.transceivers.deep_view(),
            user: self.user.deep_view(),
            metar: self.metar.deep_view(),
        }
    }
}

/// The feed document.  A passive shape: obtained by decoding the feed
/// endpoint's response, never mutated or interpreted here.
#[derive(Debug)]
pub struct Datafeed {
    pub general: General,
    pub pilots: Vec<Pilot>,
    pub controllers: Vec<Controller>,
    pub atis: Vec<Controller>,
    pub servers: Vec<Server>,
    pub prefiles: Vec<Prefile>,
}

/// The feed's summary record.  Timestamps are ISO-8601 UTC text, held
/// uninterpreted.
#[derive(Debug)]
pub struct General {
    pub version: isize,
    pub reload: isize,
    pub update: String,
    pub update_timestamp: String,
    pub connected_clients: isize,
    pub unique_users: isize,
}

/// One connected pilot.  `latitude` and `longitude` hold the bit patterns
/// of the wire format's 64-bit floats, and `qnh_i_hg` the bit pattern of
/// its 32-bit float; this crate never interprets them.
#[derive(Debug)]
pub struct Pilot {
    pub cid: isize,
    pub name: String,
    pub callsign: String,
    pub server: String,
    pub pilot_rating: isize,
    pub latitude: u64,
    pub longitude: u64,
    pub altitude: isize,
    pub groundspeed: isize,
    pub transponder: String,
    pub heading: isize,
    pub qnh_i_hg: u32,
    pub qnh_mb: isize,
    pub flight_plan: Option<Flightplan>,
    pub logon_time: String,
    pub last_updated: String,
}

/// A filed flight plan, carried optionally by pilots and prefiles.
#[derive(Debug)]
pub struct Flightplan {
    pub departure: String,
    pub arrival: String,
}

/// One controller record; the same shape serves the feed's ATIS entries.
#[derive(Debug)]
pub struct Controller {
    pub cid: isize,
    pub name: String,
    pub callsign: String,
    pub frequency: String,
    pub facility: isize,
    pub rating: isize,
    pub server: String,
    pub visual_range: isize,
    pub atis_code: Option<String>,
    pub text_atis: Option<Vec<String>>,
    pub last_updated: String,
    pub logon_time: String,
}

/// One network server record.
#[derive(Debug)]
pub struct Server {
    pub ident: String,
    pub hostname_or_ip: String,
    pub location: String,
    pub name: String,
    pub clients_connection_allowed: isize,
}

/// One prefiled connection record.
#[derive(Debug)]
pub struct Prefile {
    pub cid: isize,
    pub name: String,
    pub callsign: String,
    pub flight_plan: Option<Flightplan>,
    pub last_updated: String,
}

} // verus!
