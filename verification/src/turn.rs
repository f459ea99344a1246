//! TURN configuration and the connection descriptor advertised to
//! clients: the two `turn:` URLs (plain and `?transport=tcp`) for the
//! configured public address, with the provisioned username and password,
//! and its JSON form served by the credential endpoint.

use vstd::prelude::*;
use vstd::utf8::encode_utf8;

use crate::codec::{quote_into, spec_quoted};

verus! {

/// Default TURN listener port.
pub const DEFAULT_TURN_PORT: u16 = 3478;

/// Configuration of the TURN side: the advertised public address, the
/// listener port, the authentication realm, and the provisioned
/// (username, password) pairs.
#[derive(Clone)]
pub struct TurnConfig {
    pub public_ip: String,
    pub port: u16,
    pub realm: String,
    pub users: Vec<(String, String)>,
}

impl Default for TurnConfig {
    /// The product defaults: loopback-free catch-all address, the standard
    /// TURN port, and the single built-in credential.
    fn default() -> (r: TurnConfig)
        ensures
            r.public_ip@ == "0.0.0.0"@,
            r.port == DEFAULT_TURN_PORT,
            r.realm@ == "coyote.technology"@,
            r.users@.len() == 1,
            r.users@[0].0@ == "p2pchat"@,
            r.users@[0].1@ == "p2pchat-password"@,
    {
        let mut users: Vec<(String, String)> = Vec::new();
        users.push((String::from_str("p2pchat"), String::from_str("p2pchat-password")));
        TurnConfig {
            public_ip: String::from_str("0.0.0.0"),
            port: DEFAULT_TURN_PORT,
            realm: String::from_str("coyote.technology"),
            users,
        }
    }
}

/// The descriptor a client needs to reach the relay.
#[derive(Clone)]
pub struct TurnConnectionDetails {
    pub urls: Vec<String>,
    pub username: String,
    pub credential: String,
}

/// Mathematical model of a [`TurnConnectionDetails`].
#[verifier::ext_equal]
pub struct TurnDetailsModel {
    pub urls: Seq<Seq<char>>,
    pub username: Seq<char>,
    pub credential: Seq<char>,
}

impl View for TurnConnectionDetails {
    type V = TurnDetailsModel;

    open spec fn view(&self) -> TurnDetailsModel {
        TurnDetailsModel {
            urls: self.urls@.map_values(|u: String| u@),
            username: self.username@,
            credential: self.credential@,
        }
    }
}

/// The decimal digit `d` as a character.
pub open spec fn spec_digit_char(d: nat) -> char {
    if d == 0 {
        '0'
    } else if d == 1 {
        '1'
    } else if d == 2 {
        '2'
    } else if d == 3 {
        '3'
    } else if d == 4 {
        '4'
    } else if d == 5 {
        '5'
    } else if d == 6 {
        '6'
    } else if d == 7 {
        '7'
    } else if d == 8 {
        '8'
    } else {
        '9'
    }
}

/// The decimal rendering of `n`, most significant digit first.
pub open spec fn spec_dec(n: nat) -> Seq<char>
    decreases n,
{
    if n < 10 {
        seq![spec_digit_char(n)]
    } else {
        spec_dec(n / 10) + seq![spec_digit_char(n % 10)]
    }
}

/// One `turn:` URL for the advertised address, with the TCP transport
/// marker when `tcp` is set.
pub open spec fn spec_turn_url(ip: Seq<char>, port: nat, tcp: bool) -> Seq<char> {
    "turn:"@ + ip + ":"@ + spec_dec(port) + (if tcp {
        "?transport=tcp"@
    } else {
        Seq::empty()
    })
}

fn digit_str(d: u16) -> (r: &'static str)
    requires
        d < 10,
    ensures
        r@ == seq![spec_digit_char(d as nat)],
{
    proof {
        reveal_strlit("0");
        reveal_strlit("1");
        reveal_strlit("2");
        reveal_strlit("3");
        reveal_strlit("4");
        reveal_strlit("5");
        reveal_strlit("6");
        reveal_strlit("7");
        reveal_strlit("8");
        reveal_strlit("9");
    }
    let r: &'static str = if d == 0 {
        "0"
    } else if d == 1 {
        "1"
    } else if d == 2 {
        "2"
    } else if d == 3 {
        "3"
    } else if d == 4 {
        "4"
    } else if d == 5 {
        "5"
    } else if d == 6 {
        "6"
    } else if d == 7 {
        "7"
    } else if d == 8 {
        "8"
    } else {
        "9"
    };
    proof {
        assert(r@ =~= seq![spec_digit_char(d as nat)]);
    }
    r
}

/// Decimal rendering of a port number.
fn dec_u16(n: u16) -> (r: String)
    ensures
        r@ == spec_dec(n as nat),
    decreases n,
{
    if n < 10 {
        String::from_str(digit_str(n))
    } else {
        let mut s = dec_u16(n / 10);
        s.append(digit_str(n % 10));
        proof {
            assert(s@ =~= spec_dec(n as nat));
        }
        s
    }
}

/// Build one `turn:` URL.
fn turn_url(ip: &str, port: u16, tcp: bool) -> (r: String)
    ensures
        r@ == spec_turn_url(ip@, port as nat, tcp),
{
    let mut s = String::from_str("turn:");
    s.append(ip);
    s.append(":");
    let d = dec_u16(port);
    s.append(d.as_str());
    if tcp {
        s.append("?transport=tcp");
    }
    proof {
        assert(s@ =~= spec_turn_url(ip@, port as nat, tcp));
    }
    s
}

impl TurnConfig {
    /// The connection descriptor derived from this configuration: the UDP
    /// and TCP `turn:` URLs for the advertised address, and the first
    /// provisioned credential (empty strings when none is provisioned).
    pub fn connection_details(&self) -> (r: TurnConnectionDetails)
        ensures
            r@.urls.len() == 2,
            r@.urls[0] == spec_turn_url(self.public_ip@, self.port as nat, false),
            r@.urls[1] == spec_turn_url(self.public_ip@, self.port as nat, true),
            r@.username == (if self.users@.len() > 0 {
                self.users@[0].0@
            } else {
                Seq::<char>::empty()
            }),
            r@.credential == (if self.users@.len() > 0 {
                self.users@[0].1@
            } else {
                Seq::<char>::empty()
            }),
    {
        let mut urls: Vec<String> = Vec::new();
        urls.push(turn_url(self.public_ip.as_str(), self.port, false));
        urls.push(turn_url(self.public_ip.as_str(), self.port, true));
        let username: String;
        let credential: String;
        if self.users.len() > 0 {
            username = self.users[0].0.clone();
            credential = self.users[0].1.clone();
        } else {
            username = String::new();
            credential = String::new();
        }
        let r = TurnConnectionDetails { urls, username, credential };
        proof {
            assert(r@.urls =~= seq![
                spec_turn_url(self.public_ip@, self.port as nat, false),
                spec_turn_url(self.public_ip@, self.port as nat, true),
            ]);
        }
        r
    }
}

/// The URLs as a comma-separated JSON array body of string literals.
pub open spec fn spec_urls_array(urls: Seq<Seq<char>>) -> Seq<u8>
    decreases urls.len(),
{
    if urls.len() == 0 {
        Seq::empty()
    } else if urls.len() == 1 {
        spec_quoted(encode_utf8(urls[0]))
    } else {
        spec_urls_array(urls.drop_last()) + seq![crate::json::COMMA] + spec_quoted(
            encode_utf8(urls.last()),
        )
    }
}

/// The descriptor's JSON body, as served by the credential endpoint.
pub open spec fn spec_descriptor_json(d: TurnDetailsModel) -> Seq<u8> {
    encode_utf8("{\"urls\":["@) + spec_urls_array(d.urls) + encode_utf8("],\"username\":"@)
        + spec_quoted(encode_utf8(d.username)) + encode_utf8(",\"credential\":"@) + spec_quoted(
        encode_utf8(d.credential),
    ) + encode_utf8("}"@)
}

/// Encode the descriptor as its JSON body.
pub fn descriptor_json(d: &TurnConnectionDetails) -> (r: Vec<u8>)
    ensures
        r@ == spec_descriptor_json(d@),
{
    let mut out: Vec<u8> = Vec::new();
    crate::bytes::append_bytes(&mut out, "{\"urls\":[".as_bytes());
    let ghost head = out@;
    let ghost models = d.urls@.map_values(|u: String| u@);
    let mut i: usize = 0;
    while i < d.urls.len()
        invariant
            i <= d.urls.len(),
            models == d.urls@.map_values(|u: String| u@),
            out@ == head + spec_urls_array(models.take(i as int)),
        decreases d.urls.len() - i,
    {
        if i > 0 {
            out.push(crate::json::COMMA);
        }
        quote_into(&mut out, d.urls[i].as_str().as_bytes());
        i = i + 1;
        proof {
            assert(models.take(i as int).drop_last() =~= models.take(i as int - 1));
            assert(models.take(i as int).last() == models[i as int - 1]);
            assert(out@ =~= head + spec_urls_array(models.take(i as int)));
        }
    }
    crate::bytes::append_bytes(&mut out, "],\"username\":".as_bytes());
    quote_into(&mut out, d.username.as_str().as_bytes());
    crate::bytes::append_bytes(&mut out, ",\"credential\":".as_bytes());
    quote_into(&mut out, d.credential.as_str().as_bytes());
    crate::bytes::append_bytes(&mut out, "}".as_bytes());
    proof {
        assert(models.take(models.len() as int) =~= models);
        assert(out@ =~= spec_descriptor_json(d@));
    }
    out
}

} // verus!
