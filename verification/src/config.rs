//! The server's configuration, read from environment variables with a
//! default for each one that is missing.
use vstd::prelude::*;
use crate::text::{chars_of, parse_unsigned, parse_unsigned_range};

verus! {

#[derive(Debug, Clone)]
pub struct Config {
    pub server_host: String,
    pub server_port: u16,
    pub database_url: String,
    pub database_ns: String,
    pub database_db: String,
    pub database_user: String,
    pub database_pass: String,
    pub max_capacity: usize,
    pub max_claim_delay_ms: u64,
    pub jwt_secret: String,
}

/// The environment variables that configure the server, each as it was
/// found (`None` when unset or not Unicode): `SERVER_HOST`, `SERVER_PORT`,
/// `DATABASE_URL`, `DATABASE_NS`, `DATABASE_DB`, `DATABASE_USER`,
/// `DATABASE_PASS`, `MAX_CAPACITY`, `MAX_CLAIM_DELAY_MS`, `JWT_SECRET`.
#[derive(Debug, Clone)]
pub struct EnvSettings {
    pub server_host: Option<String>,
    pub server_port: Option<String>,
    pub database_url: Option<String>,
    pub database_ns: Option<String>,
    pub database_db: Option<String>,
    pub database_user: Option<String>,
    pub database_pass: Option<String>,
    pub max_capacity: Option<String>,
    pub max_claim_delay_ms: Option<String>,
    pub jwt_secret: Option<String>,
}

/// A text setting: its value, or the default.
pub open spec fn text_or(v: Option<String>, dflt: Seq<char>) -> Seq<char> {
    match v {
        Some(s) => s@,
        None => dflt,
    }
}

/// A number setting: the value (or `unset` when missing) read as a number
/// no larger than `max`, or `bad` when it does not read.
pub open spec fn number_or(v: Option<String>, unset: Seq<char>, max: nat, bad: nat) -> nat {
    match parse_unsigned(text_or(v, unset), max) {
        Some(n) => n,
        None => bad,
    }
}

fn text_setting(v: Option<String>, dflt: &str) -> (s: String)
    ensures
        s@ == text_or(v, dflt@),
{
    match v {
        Some(s) => s,
        None => dflt.to_owned(),
    }
}

fn number_setting(v: &Option<String>, unset: &str, max: u64, bad: u64) -> (n: u64)
    requires
        bad <= max,
    ensures
        n == number_or(*v, unset@, max as nat, bad as nat),
{
    let c = match v {
        Some(s) => chars_of(s.as_str()),
        None => chars_of(unset),
    };
    proof {
        assert(c@.subrange(0, c@.len() as int) =~= c@);
    }
    match parse_unsigned_range(&c, 0, c.len(), max) {
        Some(n) => n,
        None => bad,
    }
}

impl Config {
    /// The configuration from the environment's settings. A missing port
    /// reads as 8081, and a port that does not read as one gives 8080; the
    /// capacity defaults to 100 and the claim delay to 1000 ms, missing or
    /// unreadable alike.
    pub fn from_settings(e: EnvSettings) -> (c: Config)
        ensures
            c.server_host@ == text_or(e.server_host, "0.0.0.0"@),
            c.server_port == number_or(e.server_port, "8081"@, u16::MAX as nat, 8080),
            c.database_url@ == text_or(e.database_url, "localhost:8000"@),
            c.database_ns@ == text_or(e.database_ns, "tournament"@),
            c.database_db@ == text_or(e.database_db, "axel"@),
            c.database_user@ == text_or(e.database_user, "root"@),
            c.database_pass@ == text_or(e.database_pass, "root"@),
            c.max_capacity == number_or(e.max_capacity, "100"@, usize::MAX as nat, 100),
            c.max_claim_delay_ms == number_or(e.max_claim_delay_ms, "1000"@, u64::MAX as nat, 1000),
            c.jwt_secret@ == text_or(e.jwt_secret, "supersecret"@),
    {
        let server_port = number_setting(&e.server_port, "8081", u16::MAX as u64, 8080) as u16;
        let max_capacity = number_setting(&e.max_capacity, "100", usize::MAX as u64, 100) as usize;
        let max_claim_delay_ms = number_setting(&e.max_claim_delay_ms, "1000", u64::MAX, 1000);
        Config {
            server_host: text_setting(e.server_host, "0.0.0.0"),
            server_port,
            database_url: text_setting(e.database_url, "localhost:8000"),
            database_ns: text_setting(e.database_ns, "tournament"),
            database_db: text_setting(e.database_db, "axel"),
            database_user: text_setting(e.database_user, "root"),
            database_pass: text_setting(e.database_pass, "root"),
            max_capacity,
            max_claim_delay_ms,
            jwt_secret: text_setting(e.jwt_secret, "supersecret"),
        }
    }
}

} // verus!
