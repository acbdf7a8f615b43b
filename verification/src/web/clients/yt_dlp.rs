//! The `yt-dlp` command line that fetches captions and metadata of a video.
use crate::text::{decimal, from_chars, lemma_decimal, push_decimal};
use crate::web::utils::YTUrl;
use vstd::prelude::*;

pub mod cache;
pub mod metadata;

verus! {

/// The program run.
pub const YTDLP: &'static str = "yt-dlp";

pub const FLAG_NO_SIMULATE: &'static str = "--no-simulate";

pub const FLAG_SKIP_DOWNLOAD: &'static str = "--skip-download";

pub const FLAG_RETRIES: &'static str = "--retries";

pub const FLAG_OUTPUT: &'static str = "--output";

pub const FLAG_PROXY: &'static str = "--proxy";

pub const FLAG_PATHS: &'static str = "--paths";

pub const FLAG_WRITE_SUBS: &'static str = "--write-subs";

pub const FLAG_WRITE_AUTO_SUBS: &'static str = "--write-auto-subs";

pub const FLAG_SUB_LANGS: &'static str = "--sub-langs";

pub const FLAG_SUB_FORMAT: &'static str = "--sub-format";

pub const FLAG_WRITE_INFO_JSON: &'static str = "--write-info-json";

/// Files are named by the video id (<https://github.com/yt-dlp/yt-dlp?tab=readme-ov-file#output-template-examples>).
pub const OUTPUT_TEMPLATE: &'static str = "%(id)s";

/// The caption languages fetched.
pub const SUB_LANGS: &'static str = "en*";

/// The caption format fetched.
pub const SUB_FORMAT: &'static str = "vtt";

/// The retries when none are configured.
pub const DEFAULT_RETRIES: u8 = 3;

/// The arguments of a `yt-dlp` run: no download of the video, the retries, files named by
/// the video id, the proxy and the output directory; then, as asked, the English captions in
/// WebVTT and the metadata file; the URL last.
pub open spec fn spec_args(
    download_subtitles: bool,
    write_info_json: bool,
    retries: u8,
    proxy: Seq<char>,
    dir: Seq<char>,
    url: Seq<char>,
) -> Seq<Seq<char>> {
    seq![
        FLAG_NO_SIMULATE@,
        FLAG_SKIP_DOWNLOAD@,
        FLAG_RETRIES@,
        decimal(retries as nat),
        FLAG_OUTPUT@,
        OUTPUT_TEMPLATE@,
        FLAG_PROXY@,
        proxy,
        FLAG_PATHS@,
        dir,
    ] + (if download_subtitles {
        seq![
            FLAG_WRITE_SUBS@,
            FLAG_WRITE_AUTO_SUBS@,
            FLAG_SUB_LANGS@,
            SUB_LANGS@,
            FLAG_SUB_FORMAT@,
            SUB_FORMAT@,
        ]
    } else {
        Seq::empty()
    }) + (if write_info_json {
        seq![FLAG_WRITE_INFO_JSON@]
    } else {
        Seq::empty()
    }) + seq![url]
}

/// The flags' texts, as they are written.
proof fn lemma_flag_texts()
    ensures
        FLAG_NO_SIMULATE@ == "--no-simulate"@,
        FLAG_SKIP_DOWNLOAD@ == "--skip-download"@,
        FLAG_RETRIES@ == "--retries"@,
        FLAG_OUTPUT@ == "--output"@,
        FLAG_PROXY@ == "--proxy"@,
        FLAG_PATHS@ == "--paths"@,
        FLAG_WRITE_SUBS@ == "--write-subs"@,
        FLAG_WRITE_AUTO_SUBS@ == "--write-auto-subs"@,
        FLAG_SUB_LANGS@ == "--sub-langs"@,
        FLAG_SUB_FORMAT@ == "--sub-format"@,
        FLAG_WRITE_INFO_JSON@ == "--write-info-json"@,
        OUTPUT_TEMPLATE@ == "%(id)s"@,
        SUB_LANGS@ == "en*"@,
        SUB_FORMAT@ == "vtt"@,
{
}

/// Argument `i` of a run: one of the fixed texts, the retries, the proxy, the directory or the
/// URL.
proof fn lemma_arg_at(
    download_subtitles: bool,
    write_info_json: bool,
    retries: u8,
    proxy: Seq<char>,
    dir: Seq<char>,
    url: Seq<char>,
    i: int,
)
    requires
        0 <= i < spec_args(download_subtitles, write_info_json, retries, proxy, dir, url).len(),
    ensures
        ({
            let a = spec_args(download_subtitles, write_info_json, retries, proxy, dir, url);
            let subs: int = if download_subtitles { 6 } else { 0 };
            let info: int = if write_info_json { 1 } else { 0 };
            &&& a.len() == 11 + subs + info
            &&& i == 0 ==> a[i] == "--no-simulate"@
            &&& i == 1 ==> a[i] == "--skip-download"@
            &&& i == 2 ==> a[i] == "--retries"@
            &&& i == 3 ==> a[i] == decimal(retries as nat)
            &&& i == 4 ==> a[i] == "--output"@
            &&& i == 5 ==> a[i] == "%(id)s"@
            &&& i == 6 ==> a[i] == "--proxy"@
            &&& i == 7 ==> a[i] == proxy
            &&& i == 8 ==> a[i] == "--paths"@
            &&& i == 9 ==> a[i] == dir
            &&& download_subtitles && i == 10 ==> a[i] == "--write-subs"@
            &&& download_subtitles && i == 11 ==> a[i] == "--write-auto-subs"@
            &&& download_subtitles && i == 12 ==> a[i] == "--sub-langs"@
            &&& download_subtitles && i == 13 ==> a[i] == "en*"@
            &&& download_subtitles && i == 14 ==> a[i] == "--sub-format"@
            &&& download_subtitles && i == 15 ==> a[i] == "vtt"@
            &&& write_info_json && i == 10 + subs ==> a[i] == "--write-info-json"@
            &&& i == a.len() - 1 ==> a[i] == url
        }),
{
    lemma_flag_texts();
}

/// Law: the metadata file is asked for exactly when `write_info_json` is set, whether or not
/// captions are asked for: `--write-info-json` is among the arguments exactly then (where the
/// proxy, the directory and the URL are not that flag themselves).
pub proof fn lemma_info_json_flag(
    download_subtitles: bool,
    write_info_json: bool,
    retries: u8,
    proxy: Seq<char>,
    dir: Seq<char>,
    url: Seq<char>,
)
    requires
        proxy != FLAG_WRITE_INFO_JSON@,
        dir != FLAG_WRITE_INFO_JSON@,
        url != FLAG_WRITE_INFO_JSON@,
    ensures
        spec_args(download_subtitles, write_info_json, retries, proxy, dir, url).contains(
            FLAG_WRITE_INFO_JSON@,
        ) <==> write_info_json,
{
    reveal_strlit("--no-simulate");
    reveal_strlit("--skip-download");
    reveal_strlit("--retries");
    reveal_strlit("--output");
    reveal_strlit("--proxy");
    reveal_strlit("--paths");
    reveal_strlit("--write-subs");
    reveal_strlit("--write-auto-subs");
    reveal_strlit("--sub-langs");
    reveal_strlit("--sub-format");
    reveal_strlit("--write-info-json");
    reveal_strlit("%(id)s");
    reveal_strlit("en*");
    reveal_strlit("vtt");
    lemma_flag_texts();
    lemma_decimal(retries as nat);
    let a = spec_args(download_subtitles, write_info_json, retries, proxy, dir, url);
    let f = FLAG_WRITE_INFO_JSON@;
    let subs: int = if download_subtitles { 6 } else { 0 };
    if write_info_json {
        assert(a[10 + subs] == f);
    } else {
        assert(f.len() == 17);
        assert forall|i: int| 0 <= i < a.len() implies a[i] != f by {
            lemma_arg_at(download_subtitles, write_info_json, retries, proxy, dir, url, i);
            if i == 3 {
                assert(a[i][0] != f[0]);
            } else if i == 11 && download_subtitles {
                assert(a[i][8] != f[8]);
            }
        }
    }
}

/// Law: captions are asked for exactly when `download_subtitles` is set, whether or not the
/// metadata file is: `--write-subs` is among the arguments exactly then (where the proxy, the
/// directory and the URL are not that flag themselves).
pub proof fn lemma_subtitles_flag(
    download_subtitles: bool,
    write_info_json: bool,
    retries: u8,
    proxy: Seq<char>,
    dir: Seq<char>,
    url: Seq<char>,
)
    requires
        proxy != FLAG_WRITE_SUBS@,
        dir != FLAG_WRITE_SUBS@,
        url != FLAG_WRITE_SUBS@,
    ensures
        spec_args(download_subtitles, write_info_json, retries, proxy, dir, url).contains(
            FLAG_WRITE_SUBS@,
        ) <==> download_subtitles,
{
    reveal_strlit("--no-simulate");
    reveal_strlit("--skip-download");
    reveal_strlit("--retries");
    reveal_strlit("--output");
    reveal_strlit("--proxy");
    reveal_strlit("--paths");
    reveal_strlit("--write-subs");
    reveal_strlit("--write-auto-subs");
    reveal_strlit("--sub-langs");
    reveal_strlit("--sub-format");
    reveal_strlit("--write-info-json");
    reveal_strlit("%(id)s");
    reveal_strlit("en*");
    reveal_strlit("vtt");
    lemma_flag_texts();
    lemma_decimal(retries as nat);
    let a = spec_args(download_subtitles, write_info_json, retries, proxy, dir, url);
    let f = FLAG_WRITE_SUBS@;
    if download_subtitles {
        assert(a[10] == f);
    } else {
        assert(f.len() == 12);
        assert forall|i: int| 0 <= i < a.len() implies a[i] != f by {
            lemma_arg_at(download_subtitles, write_info_json, retries, proxy, dir, url, i);
            if i == 3 {
                assert(a[i][0] != f[0]);
            }
        }
    }
}

/// Law: asking for the metadata file adds `--write-info-json` just before the URL and changes
/// nothing else; asking for captions adds the six caption arguments after the tenth argument
/// and changes nothing else; the URL is always last.
pub proof fn lemma_args_options(
    download_subtitles: bool,
    write_info_json: bool,
    retries: u8,
    proxy: Seq<char>,
    dir: Seq<char>,
    url: Seq<char>,
)
    ensures
        spec_args(download_subtitles, true, retries, proxy, dir, url) == spec_args(
            download_subtitles,
            false,
            retries,
            proxy,
            dir,
            url,
        ).drop_last() + seq![FLAG_WRITE_INFO_JSON@, url],
        spec_args(true, write_info_json, retries, proxy, dir, url) == spec_args(
            false,
            write_info_json,
            retries,
            proxy,
            dir,
            url,
        ).take(10) + seq![
            FLAG_WRITE_SUBS@,
            FLAG_WRITE_AUTO_SUBS@,
            FLAG_SUB_LANGS@,
            SUB_LANGS@,
            FLAG_SUB_FORMAT@,
            SUB_FORMAT@,
        ] + spec_args(false, write_info_json, retries, proxy, dir, url).skip(10),
        spec_args(download_subtitles, write_info_json, retries, proxy, dir, url).last() == url,
{
    let on = spec_args(download_subtitles, true, retries, proxy, dir, url);
    let off = spec_args(download_subtitles, false, retries, proxy, dir, url);
    assert(on =~= off.drop_last() + seq![FLAG_WRITE_INFO_JSON@, url]);
    let subs = spec_args(true, write_info_json, retries, proxy, dir, url);
    let plain = spec_args(false, write_info_json, retries, proxy, dir, url);
    assert(subs =~= plain.take(10) + seq![
        FLAG_WRITE_SUBS@,
        FLAG_WRITE_AUTO_SUBS@,
        FLAG_SUB_LANGS@,
        SUB_LANGS@,
        FLAG_SUB_FORMAT@,
        SUB_FORMAT@,
    ] + plain.skip(10));
}

/// The settings of a `yt-dlp` run.
#[derive(Debug, Clone)]
pub struct YtdlpClient {
    download_subtitles: bool,
    write_info_json: bool,
    retries: u8,
    proxy: String,
}

impl View for YtdlpClient {
    type V = (bool, bool, u8, Seq<char>);

    /// Whether captions and metadata are fetched, the retries and the proxy.
    closed spec fn view(&self) -> (bool, bool, u8, Seq<char>) {
        (self.download_subtitles, self.write_info_json, self.retries, self.proxy@)
    }
}

/// Appends `s` to `args`.
fn push_arg(args: &mut Vec<String>, s: &str)
    ensures
        final(args).deep_view() == old(args).deep_view().push(s@),
{
    let ghost before = args.deep_view();
    args.push(String::from_str(s));
    assert(args.deep_view() =~= before.push(s@));
}

impl YtdlpClient {
    /// A run through `proxy` that fetches neither captions nor metadata, with the default retries.
    pub fn new(proxy: String) -> (c: Self)
        ensures
            c@ == (false, false, DEFAULT_RETRIES, proxy@),
    {
        YtdlpClient { download_subtitles: false, write_info_json: false, retries: DEFAULT_RETRIES, proxy }
    }

    /// Sets whether the captions are fetched.
    pub fn download_subtitles(&mut self, on: bool)
        ensures
            final(self)@ == (on, old(self)@.1, old(self)@.2, old(self)@.3),
    {
        self.download_subtitles = on;
    }

    /// Sets whether the metadata file is fetched.
    pub fn write_info_json(&mut self, on: bool)
        ensures
            final(self)@ == (old(self)@.0, on, old(self)@.2, old(self)@.3),
    {
        self.write_info_json = on;
    }

    /// Sets the retries.
    pub fn retries(&mut self, retries: u8)
        ensures
            final(self)@ == (old(self)@.0, old(self)@.1, retries, old(self)@.3),
    {
        self.retries = retries;
    }

    /// The arguments of the run for `url`, writing into `dir`.
    pub fn args(&self, dir: &str, url: &YTUrl) -> (args: Vec<String>)
        ensures
            args.deep_view() == spec_args(
                self@.0,
                self@.1,
                self@.2,
                self@.3,
                dir@,
                url@.0,
            ),
    {
        let mut args: Vec<String> = Vec::new();
        push_arg(&mut args, FLAG_NO_SIMULATE);
        push_arg(&mut args, FLAG_SKIP_DOWNLOAD);
        push_arg(&mut args, FLAG_RETRIES);
        let mut digits: Vec<char> = Vec::new();
        push_decimal(&mut digits, self.retries as u64);
        assert(digits@ =~= decimal(self.retries as nat));
        let ghost before = args.deep_view();
        args.push(from_chars(digits.as_slice()));
        assert(args.deep_view() =~= before.push(decimal(self.retries as nat)));
        push_arg(&mut args, FLAG_OUTPUT);
        push_arg(&mut args, OUTPUT_TEMPLATE);
        push_arg(&mut args, FLAG_PROXY);
        push_arg(&mut args, self.proxy.as_str());
        push_arg(&mut args, FLAG_PATHS);
        push_arg(&mut args, dir);
        let ghost base = args.deep_view();
        if self.download_subtitles {
            push_arg(&mut args, FLAG_WRITE_SUBS);
            push_arg(&mut args, FLAG_WRITE_AUTO_SUBS);
            push_arg(&mut args, FLAG_SUB_LANGS);
            push_arg(&mut args, SUB_LANGS);
            push_arg(&mut args, FLAG_SUB_FORMAT);
            push_arg(&mut args, SUB_FORMAT);
        }
        let ghost with_subs = args.deep_view();
        if self.write_info_json {
            push_arg(&mut args, FLAG_WRITE_INFO_JSON);
        }
        push_arg(&mut args, url.as_str());
        assert(args.deep_view() =~= spec_args(
            self@.0,
            self@.1,
            self@.2,
            self@.3,
            dir@,
            url@.0,
        ));
        args
    }
}

} // verus!
