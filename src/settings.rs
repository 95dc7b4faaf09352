//! The daemon's configuration: where it listens, where its API listens, where its
//! store lives, and which environment's configuration file applies.
use vstd::prelude::*;

use crate::text::{decimal, push_decimal, string_of_chars};

verus! {

/// The deployment environment whose configuration file is read.
#[derive(Clone, Copy, Debug, PartialEq, Eq, Structural)]
pub enum Environment {
    Local,
    Production,
    CI,
}

/// The lower-case name of the environment.
pub open spec fn environment_name(e: Environment) -> Seq<char> {
    match e {
        Environment::Local => "local"@,
        Environment::Production => "production"@,
        Environment::CI => "ci"@,
    }
}

/// `s` with every character lower-cased as `str::to_lowercase` does it.
pub uninterp spec fn lower_of(s: Seq<char>) -> Seq<char>;

/// Relies on `str::to_lowercase`: the result depends on the characters alone.
#[verifier::external_body]
fn lowercase(s: &str) -> (r: String)
    ensures
        r@ == lower_of(s@),
{
    s.to_lowercase()
}

/// The environment named by an already lower-cased `name`, or the error text.
pub open spec fn environment_of_lower(name: Seq<char>) -> Result<Environment, Seq<char>> {
    if name == "local"@ {
        Ok(Environment::Local)
    } else if name == "production"@ {
        Ok(Environment::Production)
    } else if name == "ci"@ {
        Ok(Environment::CI)
    } else {
        Err(name + " is not a supported environment. Use either `local`, `ci` or `production`."@)
    }
}

impl Environment {
    /// The environment's name: `local`, `production` or `ci`.
    pub fn as_str(&self) -> (r: &'static str)
        ensures
            r@ == environment_name(*self),
    {
        match self {
            Environment::Local => "local",
            Environment::Production => "production",
            Environment::CI => "ci",
        }
    }

    /// The environment a lower-cased name stands for.
    pub fn from_lowercase(name: &str) -> (r: Result<Environment, String>)
        ensures
            match environment_of_lower(name@) {
                Ok(e) => r == Ok::<Environment, String>(e),
                Err(m) => r matches Err(x) && x@ == m,
            },
    {
        let n = name.to_owned();
        let local = String::from_str("local");
        let production = String::from_str("production");
        let ci = String::from_str("ci");
        if n == local {
            Ok(Environment::Local)
        } else if n == production {
            Ok(Environment::Production)
        } else if n == ci {
            Ok(Environment::CI)
        } else {
            let mut msg = n;
            msg.append(" is not a supported environment. Use either `local`, `ci` or `production`.");
            Err(msg)
        }
    }

    /// The environment a name stands for, compared without regard to case.
    pub fn parse(s: String) -> (r: Result<Environment, String>)
        ensures
            match environment_of_lower(lower_of(s@)) {
                Ok(e) => r == Ok::<Environment, String>(e),
                Err(m) => r matches Err(x) && x@ == m,
            },
    {
        let lower = lowercase(s.as_str());
        Self::from_lowercase(lower.as_str())
    }
}

/// Where the scheduler's RPC server listens.
#[derive(Clone, Debug)]
pub struct ApplicationSettings {
    pub port: u16,
    pub host: String,
}

/// Where the HTTP API listens.
#[derive(Clone, Debug)]
pub struct ApiSettings {
    pub port: u16,
    pub host: String,
}

/// Where the job store lives; empty for the platform's data directory.
#[derive(Clone, Debug)]
pub struct DatabaseSettings {
    pub path: String,
}

/// The daemon's whole configuration.
#[derive(Clone, Debug)]
pub struct Settings {
    pub application: ApplicationSettings,
    pub database: DatabaseSettings,
    pub api: ApiSettings,
}

/// A host and port block of the description.
pub open spec fn host_port_text(host: Seq<char>, port: u16) -> Seq<char> {
    "    Host: "@ + host + "\n    Port: "@ + decimal(port as nat)
}

fn host_port(host: &String, port: u16) -> (r: String)
    ensures
        r@ == host_port_text(host@, port),
{
    let mut s = String::from_str("    Host: ");
    s.append(host.as_str());
    s.append("\n    Port: ");
    let mut digits: Vec<char> = Vec::new();
    push_decimal(&mut digits, port as u64);
    proof {
        assert(digits@ =~= decimal(port as nat));
    }
    let d = string_of_chars(&digits);
    s.append(d.as_str());
    s
}

impl ApplicationSettings {
    /// `    Host: <host>` and `    Port: <port>` on two lines.
    pub fn describe(&self) -> (r: String)
        ensures
            r@ == host_port_text(self.host@, self.port),
    {
        host_port(&self.host, self.port)
    }
}

impl ApiSettings {
    /// `    Host: <host>` and `    Port: <port>` on two lines.
    pub fn describe(&self) -> (r: String)
        ensures
            r@ == host_port_text(self.host@, self.port),
    {
        host_port(&self.host, self.port)
    }
}

impl DatabaseSettings {
    /// `    Path: <path>` and a line break.
    pub fn describe(&self) -> (r: String)
        ensures
            r@ == "    Path: "@ + self.path@ + "\n"@,
    {
        let mut s = String::from_str("    Path: ");
        s.append(self.path.as_str());
        s.append("\n");
        s
    }
}

impl Settings {
    /// The whole configuration as readable text, one section per part.
    pub fn describe(&self) -> (r: String)
        ensures
            r@ == "Settings:\n  Application:\n"@ + host_port_text(self.application.host@, self.application.port)
                + " \n Database:\n"@ + "    Path: "@ + self.database.path@ + "\n"@ + " \n API:\n"@
                + host_port_text(self.api.host@, self.api.port),
    {
        let mut s = String::from_str("Settings:\n  Application:\n");
        let a = self.application.describe();
        s.append(a.as_str());
        s.append(" \n Database:\n");
        let d = self.database.describe();
        s.append(d.as_str());
        s.append(" \n API:\n");
        let p = self.api.describe();
        s.append(p.as_str());
        s
    }
}

/// The HTTP API's configuration holder; serving it is the application's part.
#[derive(Clone, Debug)]
pub struct Api {
    pub settings: Settings,
}

impl Api {
    pub fn new(settings: Settings) -> (r: Self)
        ensures
            r.settings == settings,
    {
        Api { settings }
    }
}

} // verus!
