pub mod completions;
pub mod yt_dlp;

pub use completions::DeepInfraClient;
pub use yt_dlp::YtdlpClient;
