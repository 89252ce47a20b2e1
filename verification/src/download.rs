//! One download as the registry keeps it, and the events that change it.

use vstd::prelude::*;
use crate::download_options::{text_of, DownloadOptions, DownloadOptionsView};
use crate::percent::Percent;
use crate::yt_dlp::{ReaderState, YtDlp, YtDlpView};

verus! {

/// How far a download has come.
///
/// A download starts `Queued`, is `Running` while the tool reports
/// percentages, and ends `Finished`, which it never leaves.
#[derive(Debug, Clone, PartialEq, Eq)]
pub enum DownloadProgress {
    Queued,
    Running(Percent),
    Finished,
}

/// A `DownloadProgress` with its percentage as text.
pub enum DownloadProgressView {
    Queued,
    Running(Seq<char>),
    Finished,
}

impl View for DownloadProgress {
    type V = DownloadProgressView;

    open spec fn view(&self) -> DownloadProgressView {
        match self {
            DownloadProgress::Queued => DownloadProgressView::Queued,
            DownloadProgress::Running(percent) => DownloadProgressView::Running(percent@),
            DownloadProgress::Finished => DownloadProgressView::Finished,
        }
    }
}

impl Default for DownloadProgress {
    fn default() -> (r: Self)
        ensures
            r@ == DownloadProgressView::Queued,
    {
        DownloadProgress::Queued
    }
}

/// Why a download failed.
#[derive(Debug, Clone, PartialEq, Eq)]
pub enum DownloadError {
    /// The tool could not be run; the field says why.
    NotStarted(String),
    /// A frame of progress held no numeral in front of its percent sign;
    /// the field is what stood there.
    BadPercentage(String),
}

/// A `DownloadError` with its field as text.
pub enum DownloadErrorView {
    NotStarted(Seq<char>),
    BadPercentage(Seq<char>),
}

impl View for DownloadError {
    type V = DownloadErrorView;

    open spec fn view(&self) -> DownloadErrorView {
        match self {
            DownloadError::NotStarted(reason) => DownloadErrorView::NotStarted(reason@),
            DownloadError::BadPercentage(found) => DownloadErrorView::BadPercentage(found@),
        }
    }
}

/// What is reported of one download while the tool runs for it.
#[derive(Debug, Clone, PartialEq, Eq)]
pub enum DownloaderMessage {
    /// The tool announced the file it writes; the field is the file's name.
    NameObtained(String),
    /// The tool reported a percentage.
    DownloadProgressed(Percent),
    /// The tool's progress output ended.
    DownloadFinished,
    /// The download failed and is over.
    DownloadFailed(DownloadError),
}

/// A `DownloaderMessage` with its fields as text.
pub enum DownloaderMessageView {
    NameObtained(Seq<char>),
    DownloadProgressed(Seq<char>),
    DownloadFinished,
    DownloadFailed(DownloadErrorView),
}

impl View for DownloaderMessage {
    type V = DownloaderMessageView;

    open spec fn view(&self) -> DownloaderMessageView {
        match self {
            DownloaderMessage::NameObtained(name) => DownloaderMessageView::NameObtained(name@),
            DownloaderMessage::DownloadProgressed(percent) => {
                DownloaderMessageView::DownloadProgressed(percent@)
            },
            DownloaderMessage::DownloadFinished => DownloaderMessageView::DownloadFinished,
            DownloaderMessage::DownloadFailed(error) => DownloaderMessageView::DownloadFailed(
                error@,
            ),
        }
    }
}

/// The views of `messages`, in order.
pub open spec fn message_views(messages: Seq<DownloaderMessage>) -> Seq<DownloaderMessageView> {
    Seq::new(messages.len(), |i: int| messages[i]@)
}

/// One download: its identifier, what was asked for, the name of the file
/// once the tool has announced it, and how far it has come.
#[derive(Debug, Clone, PartialEq, Eq)]
pub struct Download {
    pub id: u32,
    pub options: DownloadOptions,
    pub name: Option<String>,
    pub progress: DownloadProgress,
}

/// A `Download` as plain values.
pub struct DownloadView {
    pub id: u32,
    pub options: DownloadOptionsView,
    pub name: Option<Seq<char>>,
    pub progress: DownloadProgressView,
}

impl View for Download {
    type V = DownloadView;

    open spec fn view(&self) -> DownloadView {
        DownloadView {
            id: self.id,
            options: self.options@,
            name: text_of(self.name),
            progress: self.progress@,
        }
    }
}

impl DownloadView {
    /// The download after `message`. A finished download stays as it is.
    pub open spec fn after(self, message: DownloaderMessageView) -> DownloadView {
        if self.progress is Finished {
            self
        } else {
            match message {
                DownloaderMessageView::NameObtained(name) => DownloadView {
                    name: Some(name),
                    ..self
                },
                DownloaderMessageView::DownloadProgressed(percent) => DownloadView {
                    progress: DownloadProgressView::Running(percent),
                    ..self
                },
                DownloaderMessageView::DownloadFinished => DownloadView {
                    progress: DownloadProgressView::Finished,
                    ..self
                },
                DownloaderMessageView::DownloadFailed(_) => DownloadView {
                    progress: DownloadProgressView::Finished,
                    ..self
                },
            }
        }
    }

    /// The download after each of `messages` in turn.
    pub open spec fn after_all(self, messages: Seq<DownloaderMessageView>) -> DownloadView
        decreases messages.len(),
    {
        if messages.len() == 0 {
            self
        } else {
            self.after(messages[0]).after_all(messages.drop_first())
        }
    }

    /// What stands for the download where a reader looks for its name: the
    /// file's name once known, the address asked for until then.
    pub open spec fn title(self) -> Seq<char> {
        match self.name {
            Some(name) => name,
            None => self.options.url,
        }
    }
}

impl Download {
    /// A download that has not begun: no name yet, `Queued`.
    pub fn new(options: DownloadOptions, id: u32) -> (r: Self)
        ensures
            r@ == (DownloadView {
                id,
                options: options@,
                name: None,
                progress: DownloadProgressView::Queued,
            }),
    {
        Self { options, id, name: None, progress: DownloadProgress::Queued }
    }

    /// The reader for the output of the tool's run for this download: it
    /// has read nothing yet and reports under this download's identifier.
    pub fn run(&self) -> (reader: YtDlp)
        ensures
            reader@ == (YtDlpView {
                id: self.id,
                pending: Seq::empty(),
                state: ReaderState::WaitingForName,
            }),
    {
        YtDlp::new(self.id)
    }

    /// Whether the download is `Finished`.
    pub fn is_finished(&self) -> (r: bool)
        ensures
            r == (self@.progress is Finished),
    {
        match self.progress {
            DownloadProgress::Finished => true,
            _ => false,
        }
    }

    /// Takes `message` in: a name sets the name, a percentage makes the
    /// download `Running` at it, the end and a failure make it `Finished`.
    /// On a finished download no message changes anything.
    pub fn apply(&mut self, message: DownloaderMessage)
        ensures
            final(self)@ == old(self)@.after(message@),
    {
        if self.is_finished() {
            return ;
        }
        match message {
            DownloaderMessage::NameObtained(name) => {
                self.name = Some(name);
            },
            DownloaderMessage::DownloadProgressed(percent) => {
                self.progress = DownloadProgress::Running(percent);
            },
            DownloaderMessage::DownloadFinished => {
                self.progress = DownloadProgress::Finished;
            },
            DownloaderMessage::DownloadFailed(_) => {
                self.progress = DownloadProgress::Finished;
            },
        }
    }

    /// The text that names the download to a reader.
    pub fn title(&self) -> (r: &str)
        ensures
            r@ == self@.title(),
    {
        match &self.name {
            Some(name) => name.as_str(),
            None => self.options.url.as_str(),
        }
    }
}

/// Once finished, a download stays finished and unchanged, whatever
/// messages reach it afterwards.
pub proof fn lemma_finished_is_final(download: DownloadView, messages: Seq<DownloaderMessageView>)
    requires
        download.progress is Finished,
    ensures
        download.after_all(messages) == download,
    decreases messages.len(),
{
    if messages.len() > 0 {
        lemma_finished_is_final(download, messages.drop_first());
    }
}

/// A download that any prefix of `messages` has finished is finished after
/// all of them.
pub proof fn lemma_finished_stays(
    download: DownloadView,
    messages: Seq<DownloaderMessageView>,
    k: int,
)
    requires
        0 <= k <= messages.len(),
        download.after_all(messages.take(k)).progress is Finished,
    ensures
        download.after_all(messages) == download.after_all(messages.take(k)),
    decreases k,
{
    if k == 0 {
        assert(messages.take(0) =~= Seq::empty());
        lemma_finished_is_final(download, messages);
    } else {
        let rest = messages.drop_first();
        assert(messages.take(k).drop_first() =~= rest.take(k - 1));
        assert(messages.take(k)[0] == messages[0]);
        lemma_finished_stays(download.after(messages[0]), rest, k - 1);
    }
}

} // verus!
