//! ICE configuration handed to clients for establishing peer connections.
use crate::text::{replace_all, str_replace};
use vstd::prelude::*;

verus! {

/// An ICE server: its URLs and, for TURN servers, the credentials. It is
/// deliberately not `Debug`, so that the credential cannot end up in a log.
pub struct IceServer {
    pub urls: Vec<String>,
    pub username: Option<String>,
    pub credential: Option<String>,
}

/// The mathematical content of an [`IceServer`].
pub struct IceServerView {
    pub urls: Seq<Seq<char>>,
    pub username: Option<Seq<char>>,
    pub credential: Option<Seq<char>>,
}

/// The texts of a list of strings.
pub open spec fn texts(v: Seq<String>) -> Seq<Seq<char>> {
    v.map_values(|s: String| s@)
}

/// The text of an optional string.
pub open spec fn opt_text(o: Option<String>) -> Option<Seq<char>> {
    match o {
        Some(s) => Some(s@),
        None => None,
    }
}

impl View for IceServer {
    type V = IceServerView;

    open spec fn view(&self) -> IceServerView {
        IceServerView {
            urls: texts(self.urls@),
            username: opt_text(self.username),
            credential: opt_text(self.credential),
        }
    }
}

impl IceServer {
    /// A server at `urls`, without credentials.
    pub fn new(urls: Vec<String>) -> (r: Self)
        ensures
            r@ == (IceServerView { urls: texts(urls@), username: None, credential: None }),
    {
        IceServer { urls, username: None, credential: None }
    }

    /// The server with the credentials `username` and `credential`.
    pub fn with_auth(self, username: String, credential: String) -> (r: Self)
        ensures
            r@ == (IceServerView {
                username: Some(username@),
                credential: Some(credential@),
                ..self@
            }),
    {
        IceServer { username: Some(username), credential: Some(credential), ..self }
    }

    /// A server at the one URL `url`, without credentials.
    pub fn from_url(url: String) -> (r: Self)
        ensures
            r@ == (IceServerView { urls: seq![url@], username: None, credential: None }),
    {
        let mut urls: Vec<String> = Vec::new();
        let ghost u = url@;
        urls.push(url);
        assert(texts(urls@) =~= seq![u]);
        IceServer::new(urls)
    }
}

/// The ICE servers that a client uses, and when credentials in them expire
/// (seconds since the Unix epoch), where they do.
pub struct IceConfig {
    pub ice_servers: Vec<IceServer>,
    pub expires_at: Option<u64>,
}

/// The mathematical content of an [`IceConfig`].
pub struct IceConfigView {
    pub ice_servers: Seq<IceServerView>,
    pub expires_at: Option<u64>,
}

impl View for IceConfig {
    type V = IceConfigView;

    open spec fn view(&self) -> IceConfigView {
        IceConfigView {
            ice_servers: self.ice_servers@.map_values(|s: IceServer| s@),
            expires_at: self.expires_at,
        }
    }
}

/// The public STUN servers used where no other ICE servers are configured.
pub open spec fn default_stun_urls() -> Seq<Seq<char>> {
    seq!["stun:stun.cloudflare.com:3478"@, "stun:stun.cloudflare.com:53"@]
}

/// The configuration with one server at the URLs `urls`.
pub open spec fn config_of_urls(urls: Seq<Seq<char>>) -> IceConfigView {
    IceConfigView {
        ice_servers: seq![IceServerView { urls, username: None, credential: None }],
        expires_at: None,
    }
}

/// The public STUN servers, as strings.
fn default_stun_servers() -> (r: Vec<String>)
    ensures
        texts(r@) == default_stun_urls(),
{
    let mut r: Vec<String> = Vec::new();
    r.push("stun:stun.cloudflare.com:3478".to_string());
    r.push("stun:stun.cloudflare.com:53".to_string());
    assert(texts(r@) =~= default_stun_urls());
    r
}

/// Whether two lists of strings are equal.
fn strings_eq(a: &Vec<String>, b: &Vec<String>) -> (r: bool)
    ensures
        r == (texts(a@) == texts(b@)),
{
    if a.len() != b.len() {
        return false;
    }
    let mut i: usize = 0;
    while i < a.len()
        invariant
            0 <= i <= a@.len(),
            a@.len() == b@.len(),
            forall|j: int| 0 <= j < i ==> a@[j]@ == b@[j]@,
        decreases a@.len() - i,
    {
        if a[i] != b[i] {
            assert(texts(a@)[i as int] != texts(b@)[i as int]);
            return false;
        }
        i = i + 1;
    }
    assert(texts(a@) =~= texts(b@));
    true
}

impl Default for IceConfig {
    /// The public STUN servers, in one server entry, without expiry.
    fn default() -> (r: Self)
        ensures
            r@ == config_of_urls(default_stun_urls()),
    {
        IceConfig::from_urls(default_stun_servers())
    }
}

impl IceConfig {
    /// The configuration with the servers `ice_servers`, without expiry.
    pub fn from_servers(ice_servers: Vec<IceServer>) -> (r: Self)
        ensures
            r@ == (IceConfigView {
                ice_servers: ice_servers@.map_values(|s: IceServer| s@),
                expires_at: None,
            }),
    {
        IceConfig { ice_servers, expires_at: None }
    }

    /// The configuration with one server at the URLs `urls`.
    pub fn from_urls(urls: Vec<String>) -> (r: Self)
        ensures
            r@ == config_of_urls(texts(urls@)),
    {
        let mut servers: Vec<IceServer> = Vec::new();
        servers.push(IceServer::new(urls));
        let r = IceConfig { ice_servers: servers, expires_at: None };
        assert(r@.ice_servers =~= config_of_urls(texts(urls@)).ice_servers);
        r
    }

    /// The configuration with one server at the one URL `url`.
    pub fn from_url(url: String) -> (r: Self)
        ensures
            r@ == config_of_urls(seq![url@]),
    {
        let mut urls: Vec<String> = Vec::new();
        let ghost u = url@;
        urls.push(url);
        assert(texts(urls@) =~= seq![u]);
        IceConfig::from_urls(urls)
    }

    /// Whether this is the default configuration.
    pub fn is_default(&self) -> (r: bool)
        ensures
            r == (self@ == config_of_urls(default_stun_urls())),
    {
        if self.ice_servers.len() != 1 || self.expires_at.is_some() {
            proof {
                if self@ == config_of_urls(default_stun_urls()) {
                    assert(self@.ice_servers.len() == 1);
                }
            }
            return false;
        }
        let server = &self.ice_servers[0];
        let defaults = default_stun_servers();
        let same = strings_eq(&server.urls, &defaults) && server.username.is_none()
            && server.credential.is_none();
        proof {
            assert(self@.ice_servers[0] == server@);
            if same {
                assert(self@.ice_servers =~= config_of_urls(default_stun_urls()).ice_servers);
            }
        }
        same
    }
}

/// An ICE configuration with STUN servers only.
#[derive(Debug)]
pub struct StunOnlyProvider {
    stun_servers: Vec<String>,
}

impl StunOnlyProvider {
    /// The STUN servers of the provider.
    pub closed spec fn servers(&self) -> Seq<Seq<char>> {
        texts(self.stun_servers@)
    }

    /// A provider of `stun_servers`; of the public STUN servers where none
    /// are given.
    pub fn new(stun_servers: Vec<String>) -> (r: Self)
        ensures
            r.servers() == if stun_servers@.len() == 0 {
                default_stun_urls()
            } else {
                texts(stun_servers@)
            },
    {
        if stun_servers.len() == 0 {
            StunOnlyProvider { stun_servers: default_stun_servers() }
        } else {
            StunOnlyProvider { stun_servers }
        }
    }

    /// The configuration that the provider hands out: one server at its STUN
    /// URLs.
    pub fn ice_config(&self) -> (r: IceConfig)
        ensures
            r@ == config_of_urls(self.servers()),
    {
        let mut urls: Vec<String> = Vec::new();
        let mut i: usize = 0;
        while i < self.stun_servers.len()
            invariant
                0 <= i <= self.stun_servers@.len(),
                urls@.len() == i,
                forall|j: int| 0 <= j < i ==> #[trigger] urls@[j]@ == self.stun_servers@[j]@,
            decreases self.stun_servers@.len() - i,
        {
            urls.push(self.stun_servers[i].clone());
            i = i + 1;
        }
        assert(texts(urls@) =~= texts(self.stun_servers@));
        IceConfig::from_urls(urls)
    }
}

impl Default for StunOnlyProvider {
    /// A provider of the public STUN servers.
    fn default() -> (r: Self)
        ensures
            r.servers() == default_stun_urls(),
    {
        StunOnlyProvider::new(Vec::new())
    }
}

/// The ICE servers that the Cloudflare TURN service returns.
pub struct CloudflareIceConfig {
    pub ice_servers: Vec<IceServer>,
}

impl CloudflareIceConfig {
    /// The configuration of these servers, expiring at `expiry`.
    pub fn into_ice_config(self, expiry: u64) -> (r: IceConfig)
        ensures
            r@ == (IceConfigView {
                ice_servers: self.ice_servers@.map_values(|s: IceServer| s@),
                expires_at: Some(expiry),
            }),
    {
        IceConfig { ice_servers: self.ice_servers, expires_at: Some(expiry) }
    }
}

/// The Cloudflare endpoint that generates ICE servers for a TURN key.
pub open spec fn turn_api_url(turn_key_id: Seq<char>) -> Seq<char> {
    replace_all(
        "https://rtc.live.cloudflare.com/v1/turn/keys/{TURN_KEY_ID}/credentials/generate-ice-servers"@,
        "{TURN_KEY_ID}"@,
        turn_key_id,
    )
}

/// The Cloudflare endpoint that generates ICE servers for the TURN key
/// `turn_key_id`.
pub fn cloudflare_turn_url(turn_key_id: &str) -> (r: String)
    ensures
        r@ == turn_api_url(turn_key_id@),
{
    proof {
        reveal_strlit("{TURN_KEY_ID}");
    }
    str_replace(
        "https://rtc.live.cloudflare.com/v1/turn/keys/{TURN_KEY_ID}/credentials/generate-ice-servers",
        "{TURN_KEY_ID}",
        turn_key_id,
    )
}

} // verus!
