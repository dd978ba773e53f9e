//! Settings with their default values. Reading and writing them is done
//! outside the library.
use vstd::prelude::*;

verus! {

/// Address the server listens on unless configured otherwise.
pub const DEFAULT_HOST: &'static str = "127.0.0.1";

/// Port the server listens on unless configured otherwise.
pub const DEFAULT_PORT: u16 = 7878;

/// Seconds the server waits after its last client before shutting down.
pub const DEFAULT_SHUTDOWN_TIMEOUT_SECS: u64 = 30;

/// Map provider used for links unless configured otherwise.
pub const DEFAULT_URL_PROVIDER: &'static str = "google";

/// Server settings.
#[derive(Clone, Debug)]
pub struct ServerConfig {
    pub host: String,
    pub port: u16,
    pub shutdown_timeout_secs: u64,
}

impl Default for ServerConfig {
    fn default() -> (c: ServerConfig)
        ensures
            c.host@ == DEFAULT_HOST@,
            c.port == DEFAULT_PORT,
            c.shutdown_timeout_secs == DEFAULT_SHUTDOWN_TIMEOUT_SECS,
    {
        ServerConfig {
            host: String::from_str(DEFAULT_HOST),
            port: DEFAULT_PORT,
            shutdown_timeout_secs: DEFAULT_SHUTDOWN_TIMEOUT_SECS,
        }
    }
}

/// Location settings.
#[derive(Clone, Copy, Debug)]
pub struct LocationConfig {
    /// Use the caller's own location when none is given.
    pub default_here: bool,
}

impl Default for LocationConfig {
    fn default() -> (c: LocationConfig)
        ensures
            !c.default_here,
    {
        LocationConfig { default_here: false }
    }
}

/// Map link settings: the default provider and each provider's URL template,
/// keyed by provider name.
#[derive(Clone, Debug)]
pub struct UrlConfig {
    pub default: String,
    pub providers: Vec<(String, String)>,
}

/// The built-in map link templates; `{lat}` and `{lng}` are replaced by the
/// coordinates.
pub open spec fn default_providers_spec() -> Seq<(Seq<char>, Seq<char>)> {
    seq![
        ("google"@, "https://www.google.com/maps/@{lat},{lng},15z"@),
        ("openstreetmap"@, "https://www.openstreetmap.org/#map=18/{lat}/{lng}"@),
        ("apple"@, "https://maps.apple.com/?ll={lat},{lng}"@),
    ]
}

fn provider(name: &str, template: &str) -> (p: (String, String))
    ensures
        p.0@ == name@,
        p.1@ == template@,
{
    (String::from_str(name), String::from_str(template))
}

impl Default for UrlConfig {
    fn default() -> (c: UrlConfig)
        ensures
            c.default@ == DEFAULT_URL_PROVIDER@,
            c.providers@.len() == default_providers_spec().len(),
            forall|i: int|
                0 <= i < c.providers@.len() ==> (#[trigger] c.providers@[i]).0@
                    == default_providers_spec()[i].0 && c.providers@[i].1@
                    == default_providers_spec()[i].1,
    {
        let mut providers: Vec<(String, String)> = Vec::new();
        providers.push(provider("google", "https://www.google.com/maps/@{lat},{lng},15z"));
        providers.push(
            provider("openstreetmap", "https://www.openstreetmap.org/#map=18/{lat}/{lng}"),
        );
        providers.push(provider("apple", "https://maps.apple.com/?ll={lat},{lng}"));
        UrlConfig { default: String::from_str(DEFAULT_URL_PROVIDER), providers }
    }
}

/// Keys for outside services.
#[derive(Clone, Debug)]
pub struct ApiKeysConfig {
    /// API key of the ANU quantum random number service; empty for none.
    pub anu: String,
}

impl Default for ApiKeysConfig {
    fn default() -> (c: ApiKeysConfig)
        ensures
            c.anu@.len() == 0,
    {
        ApiKeysConfig { anu: String::new() }
    }
}

} // verus!
