//! Description of one requested download, and the command line that asks the
//! external tool for it.

use vstd::prelude::*;
use vstd::string::StringExecFns;

verus! {

/// Which kind of media a download keeps.
#[derive(Debug, Clone, Copy, PartialEq, Eq, Structural, Hash)]
pub enum DownloadType {
    Video,
    Audio,
}

impl Default for DownloadType {
    fn default() -> (r: Self)
        ensures
            r == DownloadType::Video,
    {
        DownloadType::Video
    }
}

impl DownloadType {
    /// The name of the kind, as a reader sees it.
    pub open spec fn label(self) -> Seq<char> {
        match self {
            DownloadType::Video => "Video"@,
            DownloadType::Audio => "Audio"@,
        }
    }

    /// The name of the kind: `Video` or `Audio`.
    pub fn to_string(&self) -> (r: String)
        ensures
            r@ == self.label(),
    {
        match self {
            DownloadType::Video => String::from_str("Video"),
            DownloadType::Audio => String::from_str("Audio"),
        }
    }
}

/// What the user asked for: where from, where to, which kind, and which part.
///
/// A missing `timestamp_start` stands for the beginning and a missing
/// `timestamp_end` for the end of the media.
#[derive(Debug, Clone, PartialEq, Eq)]
pub struct DownloadOptions {
    pub url: String,
    pub download_path: String,
    pub download_type: DownloadType,
    pub timestamp_start: Option<String>,
    pub timestamp_end: Option<String>,
}

/// A `DownloadOptions` as plain text.
pub struct DownloadOptionsView {
    pub url: Seq<char>,
    pub download_path: Seq<char>,
    pub download_type: DownloadType,
    pub timestamp_start: Option<Seq<char>>,
    pub timestamp_end: Option<Seq<char>>,
}

/// The text of an optional string.
pub open spec fn text_of(s: Option<String>) -> Option<Seq<char>> {
    match s {
        Some(s) => Some(s@),
        None => None,
    }
}

impl View for DownloadOptions {
    type V = DownloadOptionsView;

    open spec fn view(&self) -> DownloadOptionsView {
        DownloadOptionsView {
            url: self.url@,
            download_path: self.download_path@,
            download_type: self.download_type,
            timestamp_start: text_of(self.timestamp_start),
            timestamp_end: text_of(self.timestamp_end),
        }
    }
}

/// The texts of `strings`, in order.
pub open spec fn texts(strings: Seq<String>) -> Seq<Seq<char>> {
    Seq::new(strings.len(), |i: int| strings[i]@)
}

/// A command: the program to run and the arguments to hand it.
#[derive(Debug, Clone, PartialEq, Eq)]
pub struct CommandLine {
    pub program: String,
    pub args: Vec<String>,
}

/// A `CommandLine` as plain text.
pub struct CommandLineView {
    pub program: Seq<char>,
    pub args: Seq<Seq<char>>,
}

impl View for CommandLine {
    type V = CommandLineView;

    open spec fn view(&self) -> CommandLineView {
        CommandLineView { program: self.program@, args: texts(self.args@) }
    }
}

impl DownloadOptionsView {
    /// Whether only a part of the media is asked for.
    pub open spec fn is_ranged(self) -> bool {
        self.timestamp_start is Some || self.timestamp_end is Some
    }

    /// Where the part asked for begins: `0:00` where no start is given.
    pub open spec fn start(self) -> Seq<char> {
        match self.timestamp_start {
            Some(start) => start,
            None => "0:00"@,
        }
    }

    /// Where the part asked for ends: `inf` where no end is given.
    pub open spec fn end(self) -> Seq<char> {
        match self.timestamp_end {
            Some(end) => end,
            None => "inf"@,
        }
    }

    /// The part asked for, as the tool wants it written: `*start-end`.
    pub open spec fn section(self) -> Seq<char> {
        "*"@ + self.start() + "-"@ + self.end()
    }

    /// The arguments that choose the kind of media.
    pub open spec fn kind_args(self) -> Seq<Seq<char>> {
        match self.download_type {
            DownloadType::Video => seq!["-f"@, "bestvideo"@],
            DownloadType::Audio => seq![
                "-f"@,
                "bestaudio"@,
                "--extract-audio"@,
                "--audio-format"@,
                "mp3"@,
            ],
        }
    }

    /// The number of arguments up to and with those that choose the kind.
    pub open spec fn kind_end(self) -> int {
        self.kind_args().len() as int + 3
    }

    /// The arguments that choose the part, if one is asked for.
    pub open spec fn section_args(self) -> Seq<Seq<char>> {
        if self.is_ranged() {
            seq!["--download-sections"@, self.section()]
        } else {
            Seq::empty()
        }
    }

    /// All arguments: the address, where to write, the kind, the part.
    pub open spec fn args(self) -> Seq<Seq<char>> {
        seq![self.url, "-P"@, self.download_path] + self.kind_args() + self.section_args()
    }
}

impl DownloadOptions {
    /// The command that asks the tool for this download.
    pub fn parse_command(self) -> (command: CommandLine)
        ensures
            command@.program == "yt-dlp"@,
            command@.args == self@.args(),
    {
        let ghost options = self@;
        let mut args: Vec<String> = Vec::new();
        args.push(self.url);
        args.push(String::from_str("-P"));
        args.push(self.download_path);
        args.push(String::from_str("-f"));
        match self.download_type {
            DownloadType::Video => {
                args.push(String::from_str("bestvideo"));
            },
            DownloadType::Audio => {
                args.push(String::from_str("bestaudio"));
                args.push(String::from_str("--extract-audio"));
                args.push(String::from_str("--audio-format"));
                args.push(String::from_str("mp3"));
            },
        }
        assert(texts(args@) =~= seq![options.url, "-P"@, options.download_path]
            + options.kind_args());
        if self.timestamp_start.is_some() || self.timestamp_end.is_some() {
            let start = match self.timestamp_start {
                Some(start) => start,
                None => String::from_str("0:00"),
            };
            let end = match self.timestamp_end {
                Some(end) => end,
                None => String::from_str("inf"),
            };
            let mut section = String::from_str("*");
            section.append(start.as_str());
            section.append("-");
            section.append(end.as_str());
            args.push(String::from_str("--download-sections"));
            args.push(section);
        }
        assert(texts(args@) =~= options.args());
        CommandLine { program: String::from_str("yt-dlp"), args }
    }
}

/// The arguments always hold the flags of the kind asked for, right behind
/// the address and the place to write to. Behind those flags stands the one
/// flag that names a part, with `0:00` and `inf` for a side not given, where
/// a start or an end is given, and nothing where neither is.
pub proof fn lemma_args_follow_options(options: DownloadOptionsView)
    ensures
        options.args().subrange(3, options.kind_end()) == options.kind_args(),
        options.download_type == DownloadType::Video ==> options.kind_args() == seq![
            "-f"@,
            "bestvideo"@,
        ],
        options.download_type == DownloadType::Audio ==> options.kind_args() == seq![
            "-f"@,
            "bestaudio"@,
            "--extract-audio"@,
            "--audio-format"@,
            "mp3"@,
        ],
        options.is_ranged() ==> options.args().len() == options.kind_end() + 2,
        options.is_ranged() ==> options.args()[options.kind_end()] == "--download-sections"@,
        options.is_ranged() ==> options.args()[options.kind_end() + 1] == "*"@ + options.start()
            + "-"@ + options.end(),
        !options.is_ranged() ==> options.args().len() == options.kind_end(),
        options.timestamp_start is None ==> options.start() == "0:00"@,
        options.timestamp_end is None ==> options.end() == "inf"@,
        options.timestamp_start matches Some(start) ==> options.start() == start,
        options.timestamp_end matches Some(end) ==> options.end() == end,
{
    assert(options.args().subrange(3, options.kind_end()) =~= options.kind_args());
}

} // verus!
