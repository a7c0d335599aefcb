//! Daemon configuration.
use vstd::prelude::*;

verus! {

/// Daemon configuration, read from the `GSDUI_` environment variables.
#[derive(Debug, Clone)]
pub struct DaemonConfig {
    /// Address to listen on (default: "0.0.0.0:3000")
    pub listen_addr: String,
    /// SQLite database URL (default: "sqlite:data/gsdui.db?mode=rwc")
    pub database_url: String,
    /// Directory for static files (default: "static")
    pub static_dir: String,
}

pub open spec fn or_default(v: Option<String>, d: Seq<char>) -> Seq<char> {
    match v {
        Some(s) => s@,
        None => d,
    }
}

impl DaemonConfig {
    /// The configuration from the values of `GSDUI_LISTEN_ADDR`,
    /// `GSDUI_DATABASE_URL` and `GSDUI_STATIC_DIR` (`None` for a variable that
    /// is unset or not Unicode), with the defaults for the missing ones.
    pub fn from_values(
        listen_addr: Option<String>,
        database_url: Option<String>,
        static_dir: Option<String>,
    ) -> (r: DaemonConfig)
        ensures
            r.listen_addr@ == or_default(listen_addr, "0.0.0.0:3000"@),
            r.database_url@ == or_default(database_url, "sqlite:data/gsdui.db?mode=rwc"@),
            r.static_dir@ == or_default(static_dir, "static"@),
    {
        DaemonConfig {
            listen_addr: match listen_addr {
                Some(v) => v,
                None => String::from_str("0.0.0.0:3000"),
            },
            database_url: match database_url {
                Some(v) => v,
                None => String::from_str("sqlite:data/gsdui.db?mode=rwc"),
            },
            static_dir: match static_dir {
                Some(v) => v,
                None => String::from_str("static"),
            },
        }
    }
}

} // verus!
