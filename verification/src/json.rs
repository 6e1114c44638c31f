//! The status document: what the server says of itself to a status query.

use vstd::prelude::*;

verus! {

/// The name under which the one sampled player is listed.
pub const SAMPLE_NAME: &'static str = "I'm coded in Rust!";

/// The identifier of the one sampled player.
pub const SAMPLE_ID: &'static str = "0541ed27-7595-4e6a-9101-6c07f879b7b5";

/// The server icon: a PNG image as a base64 data reference.
pub const FAVICON: &'static str = "data:image/png;base64,\n\t    \
     iVBORw0KGgoAAAANSUhEUgAAAEAAAABACAYAAACqaXHeAAAACXBIWXMAACdeAAAnXgHPwViOAAAA\
     GXRFWHRTb2Z0d2FyZQB3d3cuaW5rc2NhcG\n\t    \
     Uub3Jnm+48GgAAA1dJREFUeJztm8FPE0EUxr+\n\t    \
     3u6BE8KAJQZCbisbEgsSEpi0pqEeDF4hcTEy8Ef8EEv4Iw8UYTfSANpGEK1EaaEOM0UIjMcBNCKK\
     JB4VTy87zQFta0t1u2WUH2/\n\t    \
     mdtvte3nzvy3Q6u9sFFPUNWQV6I5ELpjB6QHTGT0FeQ4xdo0GkPsXj22Xjh08EgoMdZGASjHvl4v\
     8pAsAMsT6WSs5uFQdKGgwEBzs0nRcZ1Omr\n\t    \
     PJ8g8AbY6Cs2QStJMDBZq80DAIM6mcynxecKM6AndLedydxE7Ux7K0SDITrya0LRDDADqP3mAUDL\
     mBQofMgfMKFZjh7/\n\t    \
     Iaaz+WPNLrEeUAbIFiAbZYBsAbJRBsgWIBvDbQFienyp/dzLWCxmWuVcj0abG7L6axAPOSw7nTXE\
     w5V4fNcqYXh4WF/f/\n\t    \
     v0IjGdViy7C9Qyo1DwArMTju6RhymlNZnpj1zwAxGIx83Lb+RdOa1rh2oBKzedhZkd5AEDEwsux7\
     aj7NUAZIFuAbJQBsgXIRhngtkBXKNTiJI/\n\t    \
     BjvL2c53dnHE6th2ud4JNOP2qJ3J7yu53nsEtxDQOoiWA1yuUvELg8UB4gAi0Y5VERDqDR8FHlg7\
     AAwNAPMQM2y0ugQDC8lIi0gtMVNjkTGjd4\n\t    \
     fkvBDy3y2J22XkOP9eAtcrNA7mctWNXk0MtgrIFyKbuDXC/\n\t    \
     CB7wSzD3p5Nzq24LLSU+jFjFboQGujSieQCtbscBPJwBBCS8aL4S6eTcKgEJr+p5ZgADrq/\n\t    \
     NZYxV92uAMkC2ANkoA2QLkI0yQLYA2Xi5E7TlRjR6UdvTgk5yhSEW0/\n\t    \
     H45nFrAnw0INf8W4e5IwBix6soN5Yfg5xklAFeFSJAt40T2caLYSZbXZXGqgYvL4bCvcHo1XKxrl\
     CohcGjTmsR8QOrO743++\n\t    \
     9cYyByVJ2H8XIRbDV17Vt3eLB8tLp7mPeb6NTfcrWEcPTg2DFqDZAtQDbKANkCZKMMkC1ANsqAgw\
     PrJ7G1Bgv8yR8XDCDKLGP/\n\t    \
     7apaRzQ2inT+Q8GAzwsLPwDMSJHkI8w0XfwOYelbY6yPEXjDf1m+8d3QMk+\n\t    \
     KT5QYkErOboGNPgDTqK2vgyDgnU7ZvtxML2D5ltitaLTN3NO7RRX/7TmJaKCdTBaprx/f/5StRXE\
     S+Qfq2fZ/\n\t    \
     nG9J9gAAAABJRU5ErkJggg==";

/// The version that the server announces.
#[derive(Clone, Debug, PartialEq, Eq)]
pub struct Version {
    pub name: String,
    /// The protocol number, as the peer declared it in its handshake.
    pub protocol: u32,
}

/// One listed player.
#[derive(Clone, Debug, PartialEq, Eq)]
pub struct PlayerSample {
    pub name: String,
    pub id: String,
}

/// Capacity, head count and a few of the players.
#[derive(Clone, Debug, PartialEq, Eq)]
pub struct Players {
    pub max: u32,
    pub online: u32,
    pub sample: Vec<PlayerSample>,
}

/// The message of the day.
#[derive(Clone, Debug, PartialEq, Eq)]
pub struct Description {
    pub text: String,
}

/// The status document. One is made for each status request and kept by
/// nobody.
#[derive(Clone, Debug, PartialEq, Eq)]
pub struct Status {
    pub version: Version,
    pub players: Players,
    pub description: Description,
    pub favicon: String,
    pub enforces_secure_chat: bool,
}

/// A status document as contracts see it.
pub struct StatusView {
    pub version_name: Seq<char>,
    pub protocol: u32,
    pub max_players: u32,
    pub online_players: u32,
    /// Name and identifier of each listed player, in order.
    pub sample: Seq<(Seq<char>, Seq<char>)>,
    pub description: Seq<char>,
    pub favicon: Seq<char>,
    pub enforces_secure_chat: bool,
}

impl View for Status {
    type V = StatusView;

    open spec fn view(&self) -> StatusView {
        StatusView {
            version_name: self.version.name@,
            protocol: self.version.protocol,
            max_players: self.players.max,
            online_players: self.players.online,
            sample: self.players.sample@.map_values(|p: PlayerSample| (p.name@, p.id@)),
            description: self.description.text@,
            favicon: self.favicon@,
            enforces_secure_chat: self.enforces_secure_chat,
        }
    }
}

/// The document that the server gives out: the values handed in, one
/// sampled player, the server icon, and secure chat enforced.
pub open spec fn status_document(
    name: Seq<char>,
    protocol: u32,
    max_players: u32,
    online_players: u32,
    description_text: Seq<char>,
) -> StatusView {
    StatusView {
        version_name: name,
        protocol,
        max_players,
        online_players,
        sample: seq![(SAMPLE_NAME@, SAMPLE_ID@)],
        description: description_text,
        favicon: FAVICON@,
        enforces_secure_chat: true,
    }
}

impl Status {
    /// Builds the status document. `protocol` is echoed as given: it is not
    /// held against any table of supported versions.
    pub fn new(
        name: &str,
        protocol: u32,
        max_players: u32,
        online_players: u32,
        description_text: &str,
    ) -> (status: Status)
        ensures
            status@ == status_document(
                name@,
                protocol,
                max_players,
                online_players,
                description_text@,
            ),
    {
        let version = Version { name: name.to_owned(), protocol };

        let player_sample = PlayerSample { name: SAMPLE_NAME.to_owned(), id: SAMPLE_ID.to_owned() };
        let mut sample: Vec<PlayerSample> = Vec::new();
        sample.push(player_sample);

        let players = Players { max: max_players, online: online_players, sample };

        let description = Description { text: description_text.to_owned() };

        let status = Status {
            version,
            players,
            description,
            favicon: FAVICON.to_owned(),
            enforces_secure_chat: true,
        };
        assert(status@.sample =~= seq![(SAMPLE_NAME@, SAMPLE_ID@)]);
        status
    }
}

} // verus!
