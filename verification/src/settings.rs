//! Configuration: the settings the relay runs with, parsed out of the
//! TOML text the caller read from disk. Absence or malformation is
//! reported, never papered over — at startup the caller treats it as
//! fatal.
use vstd::prelude::*;

verus! {

broadcast use vstd::string::group_string_axioms;

/// Credentials and addressing for the outbound mail transport.
pub struct SmtpConfig {
    pub username: String,
    pub password: String,
    pub server: String,
    pub port: u16,
    pub to: String,
    pub from: String,
}

/// Behaviour knobs: how often the drain pass runs and how many entries
/// one pass may process.
pub struct AppSettings {
    pub loop_interval_seconds: u64,
    pub rate_limit: usize,
}

/// Everything the relay is configured with.
pub struct AppConfig {
    pub smtp: SmtpConfig,
    pub app: AppSettings,
}

/// What a TOML text holds as a string under a dotted key: the value
/// when the text parses and the key yields one, nothing otherwise. A
/// function of the text and the key alone; nothing here states its
/// value on given inputs.
pub uninterp spec fn toml_string_of(text: Seq<char>, key: Seq<char>) -> Option<Seq<char>>;

/// What a TOML text holds as an integer under a dotted key, in the
/// same way.
pub uninterp spec fn toml_int_of(text: Seq<char>, key: Seq<char>) -> Option<i64>;

/// Relies on config's Config built from a TOML string source, and its
/// Config::get_string: which text stands under a dotted key is decided
/// by the outside parser and depends on the TOML text and the key
/// alone. The error carries the parser's message.
#[verifier::external_body]
fn toml_string(text: &str, key: &str) -> (r: Result<String, String>)
    ensures
        (r matches Ok(v) ==> toml_string_of(text@, key@) == Some(v@)),
        r is Err <==> toml_string_of(text@, key@) is None,
{
    config::Config::builder()
        .add_source(config::File::from_str(text, config::FileFormat::Toml))
        .build()
        .map_err(|e| e.to_string())?
        .get_string(key)
        .map_err(|e| e.to_string())
}

/// Relies on config's Config built from a TOML string source, and its
/// Config::get_int: which integer stands under a dotted key, decided
/// and determined as for `toml_string`.
#[verifier::external_body]
fn toml_int(text: &str, key: &str) -> (r: Result<i64, String>)
    ensures
        (r matches Ok(v) ==> toml_int_of(text@, key@) == Some(v)),
        r is Err <==> toml_int_of(text@, key@) is None,
{
    config::Config::builder()
        .add_source(config::File::from_str(text, config::FileFormat::Toml))
        .build()
        .map_err(|e| e.to_string())?
        .get_int(key)
        .map_err(|e| e.to_string())
}

/// Whether an integer setting was found and lies in `[0, bound]`.
pub open spec fn int_in_range(v: Option<i64>, bound: u64) -> bool {
    match v {
        Some(p) => 0 <= p && p as int <= bound as int,
        None => false,
    }
}

/// Read an integer setting and check it lies in `[0, bound]`.
fn toml_int_in_range(text: &str, key: &str, bound: u64) -> (r: Result<u64, String>)
    ensures
        r is Ok <==> int_in_range(toml_int_of(text@, key@), bound),
        (r matches Ok(v) ==> (toml_int_of(text@, key@) matches Some(p) && p as int == v as int)),
{
    match toml_int(text, key) {
        Ok(v) => {
            if v < 0 {
                return Err("configuration value is negative".to_string());
            }
            let w = v as u64;
            if w > bound {
                return Err("configuration value is out of range".to_string());
            }
            Ok(w)
        },
        Err(e) => Err(e),
    }
}

/// Whether a TOML text supplies every setting the relay needs: the six
/// `smtp` strings, a port in `[0, 65535]`, and the two non-negative
/// `app` integers with the rate limit fitting the machine.
pub open spec fn spec_config_ok(text: Seq<char>) -> bool {
    &&& toml_string_of(text, "smtp.username"@) is Some
    &&& toml_string_of(text, "smtp.password"@) is Some
    &&& toml_string_of(text, "smtp.server"@) is Some
    &&& toml_string_of(text, "smtp.to"@) is Some
    &&& toml_string_of(text, "smtp.from"@) is Some
    &&& int_in_range(toml_int_of(text, "smtp.port"@), 65535)
    &&& int_in_range(toml_int_of(text, "app.loop_interval_seconds"@), u64::MAX)
    &&& int_in_range(toml_int_of(text, "app.rate_limit"@), usize::MAX as u64)
}

/// Assemble a configuration from its plain parts.
pub fn build_app_config(
    username: String,
    password: String,
    server: String,
    port: u16,
    to: String,
    from: String,
    loop_interval_seconds: u64,
    rate_limit: usize,
) -> (r: AppConfig)
    ensures
        r.smtp.username == username,
        r.smtp.password == password,
        r.smtp.server == server,
        r.smtp.port == port,
        r.smtp.to == to,
        r.smtp.from == from,
        r.app.loop_interval_seconds == loop_interval_seconds,
        r.app.rate_limit == rate_limit,
{
    AppConfig {
        smtp: SmtpConfig { username, password, server, port, to, from },
        app: AppSettings { loop_interval_seconds, rate_limit },
    }
}

/// Load the relay's configuration from TOML text. It succeeds exactly
/// when the text supplies every `smtp` and `app` setting with the
/// right kind and range, and then each field equals the text's value;
/// a missing, ill-typed or out-of-range setting is an error carrying
/// the reason, and nothing is defaulted.
pub fn load_app_config(text: &str) -> (r: Result<AppConfig, String>)
    ensures
        r is Ok <==> spec_config_ok(text@),
        (r matches Ok(c) ==> ({
            &&& (toml_string_of(text@, "smtp.username"@) matches Some(v) && c.smtp.username@ == v)
            &&& (toml_string_of(text@, "smtp.password"@) matches Some(v) && c.smtp.password@ == v)
            &&& (toml_string_of(text@, "smtp.server"@) matches Some(v) && c.smtp.server@ == v)
            &&& (toml_string_of(text@, "smtp.to"@) matches Some(v) && c.smtp.to@ == v)
            &&& (toml_string_of(text@, "smtp.from"@) matches Some(v) && c.smtp.from@ == v)
            &&& (toml_int_of(text@, "smtp.port"@) matches Some(p) && c.smtp.port as int == p as int)
            &&& (toml_int_of(text@, "app.loop_interval_seconds"@) matches Some(p)
                && c.app.loop_interval_seconds as int == p as int)
            &&& (toml_int_of(text@, "app.rate_limit"@) matches Some(p) && c.app.rate_limit as int
                == p as int)
        })),
{
    let username = match toml_string(text, "smtp.username") {
        Ok(v) => v,
        Err(e) => {
            return Err(e);
        },
    };
    let password = match toml_string(text, "smtp.password") {
        Ok(v) => v,
        Err(e) => {
            return Err(e);
        },
    };
    let server = match toml_string(text, "smtp.server") {
        Ok(v) => v,
        Err(e) => {
            return Err(e);
        },
    };
    let to = match toml_string(text, "smtp.to") {
        Ok(v) => v,
        Err(e) => {
            return Err(e);
        },
    };
    let from = match toml_string(text, "smtp.from") {
        Ok(v) => v,
        Err(e) => {
            return Err(e);
        },
    };
    let port64 = match toml_int_in_range(text, "smtp.port", 65535) {
        Ok(v) => v,
        Err(e) => {
            return Err(e);
        },
    };
    let port: u16 = port64 as u16;
    let loop_interval_seconds = match toml_int_in_range(text, "app.loop_interval_seconds", u64::MAX)
        {
        Ok(v) => v,
        Err(e) => {
            return Err(e);
        },
    };
    let rate64 = match toml_int_in_range(text, "app.rate_limit", usize::MAX as u64) {
        Ok(v) => v,
        Err(e) => {
            return Err(e);
        },
    };
    let rate_limit: usize = rate64 as usize;
    Ok(
        build_app_config(
            username,
            password,
            server,
            port,
            to,
            from,
            loop_interval_seconds,
            rate_limit,
        ),
    )
}

} // verus!
