//! Settings read from the environment.
use vstd::prelude::*;

verus! {

/// Why settings could not be read: loading the `.env` file failed, or a variable is missing
/// or malformed. The outside error is held by its description.
#[derive(Debug)]
pub enum Error {
    Load(String),
    Parse(String),
}

pub type Result<T> = core::result::Result<T, Error>;

/// Loading the `.env` file, as built without it: nothing to load.
pub fn load_env() -> (r: Result<()>)
    ensures
        r is Ok,
{
    Ok(())
}

/// Settings that are read from the environment variables with a given prefix.
pub trait FromEnv {
    fn from_env() -> Result<Self> where Self: Sized;
}

/// Where yt-dlp writes its files when nothing else is set.
pub fn output_path() -> (p: String)
    ensures
        p@ == "./transcripts"@,
{
    String::from_str("./transcripts")
}

/// The retries of yt-dlp when nothing else is set.
pub fn retries() -> (r: u8)
    ensures
        r == 3,
{
    3
}

/// The log filter when nothing else is set.
pub fn rust_log() -> (l: String)
    ensures
        l@ == "youtube_summarizer_server=info,sqlx=info,reqwest=info,tower_http=warn,h2=warn"@,
{
    String::from_str("youtube_summarizer_server=info,sqlx=info,reqwest=info,tower_http=warn,h2=warn")
}

/// The port served when nothing else is set.
pub fn port() -> (p: u16)
    ensures
        p == 8080,
{
    8080
}

/// The settings of the runtime: the log filter.
#[derive(Debug, Clone)]
pub struct RustSettings {
    pub log: String,
}

/// The settings of the application: the port and the directory of the static files.
#[derive(Debug, Clone)]
pub struct ApplicationSettings {
    pub port: u16,
    pub public_dir: String,
}

} // verus!
