//! Server options as given by the caller, and the configuration resolved
//! from them once at start-up.
use vstd::prelude::*;

verus! {

/// Options chosen before the server starts; an absent one takes its default.
#[derive(Clone, Debug)]
pub struct ServerOptions {
    pub debug: bool,
    pub listen_addr: Option<String>,
    pub tmp_dir: Option<String>,
    pub acv_dir: Option<String>,
    pub tot_mem_limit: Option<String>,
    pub file_threshold: Option<String>,
    pub log_file: Option<String>,
    pub log_level: Option<u8>,
}

impl ServerOptions {
    pub fn new() -> (r: Self)
        ensures
            !r.debug,
            r.listen_addr is None,
            r.tmp_dir is None,
            r.acv_dir is None,
            r.tot_mem_limit is None,
            r.file_threshold is None,
            r.log_file is None,
            r.log_level is None,
    {
        ServerOptions {
            debug: false,
            listen_addr: None,
            tmp_dir: None,
            acv_dir: None,
            tot_mem_limit: None,
            file_threshold: None,
            log_file: None,
            log_level: None,
        }
    }

    pub fn set_debug(&mut self)
        ensures
            *final(self) == (ServerOptions { debug: true, ..*old(self) }),
    {
        self.debug = true;
    }

    pub fn set_listen_addr(&mut self, listen_addr: String)
        ensures
            *final(self) == (ServerOptions { listen_addr: Some(listen_addr), ..*old(self) }),
    {
        self.listen_addr = Some(listen_addr);
    }

    pub fn set_tmp_dir(&mut self, tmp_dir: String)
        ensures
            *final(self) == (ServerOptions { tmp_dir: Some(tmp_dir), ..*old(self) }),
    {
        self.tmp_dir = Some(tmp_dir);
    }

    pub fn set_acv_dir(&mut self, acv_dir: String)
        ensures
            *final(self) == (ServerOptions { acv_dir: Some(acv_dir), ..*old(self) }),
    {
        self.acv_dir = Some(acv_dir);
    }

    pub fn set_tot_mem_limit(&mut self, tot_mem_limit: String)
        ensures
            *final(self) == (ServerOptions { tot_mem_limit: Some(tot_mem_limit), ..*old(self) }),
    {
        self.tot_mem_limit = Some(tot_mem_limit);
    }

    pub fn set_file_threshold(&mut self, file_threshold: String)
        ensures
            *final(self) == (ServerOptions { file_threshold: Some(file_threshold), ..*old(self) }),
    {
        self.file_threshold = Some(file_threshold);
    }

    pub fn set_log_file(&mut self, log_file: String)
        ensures
            *final(self) == (ServerOptions { log_file: Some(log_file), ..*old(self) }),
    {
        self.log_file = Some(log_file);
    }

    pub fn set_log_level(&mut self, log_level: u8)
        ensures
            *final(self) == (ServerOptions { log_level: Some(log_level), ..*old(self) }),
    {
        self.log_level = Some(log_level);
    }

    /// Resolves the options into a configuration, with the defaults for
    /// what was not set. Fails when a size cannot be read.
    pub fn config(&self) -> (r: Result<ServerConfig, ConfigError>)
        ensures
            ({
                let mem = size_value(text_or(self.tot_mem_limit, DEFAULT_TOT_MEM_LIMIT@));
                let thr = size_value(text_or(self.file_threshold, DEFAULT_FILE_THRESHOLD@));
                match r {
                    Ok(c) => mem is Some && thr is Some && c.tot_mem_limit == mem->0
                        && c.file_threshold == thr->0 && c.debug == self.debug
                        && c.listen_addr@ == text_or(self.listen_addr, DEFAULT_LISTEN_ADDR@)
                        && c.tmp_dir@ == text_or(self.tmp_dir, DEFAULT_TMP_DIR@)
                        && c.acv_dir@ == text_or(self.acv_dir, DEFAULT_ACV_DIR@)
                        && c.log_file@ == text_or(self.log_file, DEFAULT_LOG_FILE@)
                        && c.log_level == (match self.log_level {
                            Some(l) => l,
                            None => DEFAULT_LOG_LEVEL,
                        }),
                    Err(ConfigError::TotMemLimit) => mem is None,
                    Err(ConfigError::FileThreshold) => mem is Some && thr is None,
                }
            }),
    {
        let mem_text = choose_text(&self.tot_mem_limit, DEFAULT_TOT_MEM_LIMIT);
        let tot_mem_limit = match parse_size_text(mem_text.as_str()) {
            Some(v) => v,
            None => return Err(ConfigError::TotMemLimit),
        };
        let thr_text = choose_text(&self.file_threshold, DEFAULT_FILE_THRESHOLD);
        let file_threshold = match parse_size_text(thr_text.as_str()) {
            Some(v) => v,
            None => return Err(ConfigError::FileThreshold),
        };
        let log_level = match self.log_level {
            Some(l) => l,
            None => DEFAULT_LOG_LEVEL,
        };
        Ok(ServerConfig {
            debug: self.debug,
            listen_addr: choose_text(&self.listen_addr, DEFAULT_LISTEN_ADDR),
            tmp_dir: choose_text(&self.tmp_dir, DEFAULT_TMP_DIR),
            acv_dir: choose_text(&self.acv_dir, DEFAULT_ACV_DIR),
            tot_mem_limit,
            file_threshold,
            log_file: choose_text(&self.log_file, DEFAULT_LOG_FILE),
            log_level,
        })
    }
}

pub const DEFAULT_LISTEN_ADDR: &'static str = "127.0.0.1:7578";
pub const DEFAULT_TMP_DIR: &'static str = "./bb_tmp";
pub const DEFAULT_ACV_DIR: &'static str = "./bb_acv";
pub const DEFAULT_TOT_MEM_LIMIT: &'static str = "1GiB";
pub const DEFAULT_FILE_THRESHOLD: &'static str = "1MiB";
pub const DEFAULT_LOG_FILE: &'static str = "./bulletin-board.log";
pub const DEFAULT_LOG_LEVEL: u8 = 3;

/// The text of an option, or its default when it was not set.
pub open spec fn text_or(o: Option<String>, default: Seq<char>) -> Seq<char> {
    match o {
        Some(s) => s@,
        None => default,
    }
}

fn choose_text(o: &Option<String>, default: &str) -> (r: String)
    ensures
        r@ == text_or(*o, default@),
{
    match o {
        Some(s) => s.clone(),
        None => String::from_str(default),
    }
}

/// Which size option could not be read.
#[derive(Clone, Copy, Debug, PartialEq, Eq)]
pub enum ConfigError {
    TotMemLimit,
    FileThreshold,
}

/// The configuration that the board and the session handler work with.
#[derive(Clone, Debug)]
pub struct ServerConfig {
    pub debug: bool,
    pub listen_addr: String,
    pub tmp_dir: String,
    pub acv_dir: String,
    pub tot_mem_limit: u64,
    pub file_threshold: u64,
    pub log_file: String,
    pub log_level: u8,
}

/// The number of bytes that a size text such as `1GiB` stands for, as the
/// size parser reads it; `None` where it cannot be read.
pub uninterp spec fn size_value(s: Seq<char>) -> Option<u64>;

/// Relies on parse_size::parse_size: the number of bytes a size text stands
/// for, or an error for a text it cannot read; the result depends on the text alone.
#[verifier::external_body]
fn parse_size_text(s: &str) -> (r: Option<u64>)
    ensures
        r == size_value(s@),
{
    parse_size::parse_size(s).ok()
}

/// The pattern of an address that names a TCP host and port.
pub const TCP_ADDR_PATTERN: &'static str = ":[0-9]+$";

/// Whether the regular expression `pattern` matches somewhere in `text`, as
/// the regex crate decides; `None` where the pattern does not compile.
pub uninterp spec fn regex_match(pattern: Seq<char>, text: Seq<char>) -> Option<bool>;

/// Relies on regex::Regex::new and regex::Regex::is_match: compiles the
/// pattern and tests it on the text; the result depends on the two texts alone.
#[verifier::external_body]
fn regex_is_match(pattern: &str, text: &str) -> (r: Option<bool>)
    ensures
        r == regex_match(pattern@, text@),
{
    match regex::Regex::new(pattern) {
        Ok(re) => Some(re.is_match(text)),
        Err(_) => None,
    }
}

/// Whether an address is a TCP `host:port` address rather than the path of
/// a local socket.
pub fn is_tcp_address(addr: &str) -> (r: bool)
    ensures
        r == (regex_match(TCP_ADDR_PATTERN@, addr@) == Some(true)),
{
    match regex_is_match(TCP_ADDR_PATTERN, addr) {
        Some(b) => b,
        None => false,
    }
}

impl ServerConfig {
    /// Whether the server listens on TCP rather than on a local socket.
    pub fn listens_on_tcp(&self) -> (r: bool)
        ensures
            r == (regex_match(TCP_ADDR_PATTERN@, self.listen_addr@) == Some(true)),
    {
        is_tcp_address(self.listen_addr.as_str())
    }
}

} // verus!
