//! The state of the application: what the user has typed for the next
//! download, and the registry of the downloads begun so far.

use vstd::prelude::*;
use crate::download::{
    Download,
    DownloadProgressView,
    DownloadView,
    DownloaderMessage,
    DownloaderMessageView,
};
use crate::download_options::{text_of, DownloadOptions, DownloadOptionsView, DownloadType};
use crate::text::{first_index, lemma_first_index, lemma_first_index_is};

verus! {

/// What can happen to the application.
#[derive(Debug, Clone, PartialEq, Eq)]
pub enum Message {
    /// The user typed the address.
    UrlChanged(String),
    /// The user chose the kind of media.
    DownloadTypeChanged(DownloadType),
    /// The place to write to changed.
    DownloadPathChanged(String),
    /// The user typed where the part asked for begins.
    TimestampStartChanged(String),
    /// The user typed where the part asked for ends.
    TimestampEndChanged(String),
    /// The reader of the download with this identifier reports.
    Downloader(u32, DownloaderMessage),
    /// The user wants to pick the place to write to.
    Browse,
    /// The user wants the download to begin.
    StartDownload,
}

/// A `Message` with its fields as text.
pub enum MessageView {
    UrlChanged(Seq<char>),
    DownloadTypeChanged(DownloadType),
    DownloadPathChanged(Seq<char>),
    TimestampStartChanged(Seq<char>),
    TimestampEndChanged(Seq<char>),
    Downloader(u32, DownloaderMessageView),
    Browse,
    StartDownload,
}

impl View for Message {
    type V = MessageView;

    open spec fn view(&self) -> MessageView {
        match self {
            Message::UrlChanged(url) => MessageView::UrlChanged(url@),
            Message::DownloadTypeChanged(kind) => MessageView::DownloadTypeChanged(*kind),
            Message::DownloadPathChanged(path) => MessageView::DownloadPathChanged(path@),
            Message::TimestampStartChanged(start) => MessageView::TimestampStartChanged(start@),
            Message::TimestampEndChanged(end) => MessageView::TimestampEndChanged(end@),
            Message::Downloader(id, message) => MessageView::Downloader(*id, message@),
            Message::Browse => MessageView::Browse,
            Message::StartDownload => MessageView::StartDownload,
        }
    }
}

/// What is left to do, outside the state, after a message was taken in.
#[derive(Debug, Clone, Copy, PartialEq, Eq, Structural)]
pub enum Effect {
    /// Nothing.
    Nothing,
    /// Let the user pick a folder, beginning at the place to write to, and
    /// report the folder picked as `Message::DownloadPathChanged`.
    PickFolder,
    /// Run the tool for the download with this identifier, which was added.
    Start(u32),
}

/// Why a message changed nothing.
#[derive(Debug, Clone, Copy, PartialEq, Eq, Structural)]
pub enum UpdateError {
    /// A reader reported for a download that the registry does not hold.
    UnknownDownload(u32),
    /// All identifiers are spent: no further download can begin.
    OutOfIds,
}

/// The state of the application.
#[derive(Debug)]
pub struct App {
    url: String,
    download_path: String,
    download_type: DownloadType,
    timestamp_start: String,
    timestamp_end: String,
    downloads: Vec<Download>,
    last_id: u32,
}

/// An `App` as plain values.
pub struct AppView {
    pub url: Seq<char>,
    pub download_path: Seq<char>,
    pub download_type: DownloadType,
    pub timestamp_start: Seq<char>,
    pub timestamp_end: Seq<char>,
    pub downloads: Seq<DownloadView>,
    pub last_id: u32,
}

/// The views of `downloads`, in order.
pub open spec fn download_views(downloads: Seq<Download>) -> Seq<DownloadView> {
    Seq::new(downloads.len(), |i: int| downloads[i]@)
}

/// `text` where it is not empty.
pub open spec fn unless_empty(text: Seq<char>) -> Option<Seq<char>> {
    if text.len() > 0 {
        Some(text)
    } else {
        None
    }
}

impl AppView {
    /// The identifiers of the downloads, in order.
    pub open spec fn ids(self) -> Seq<u32> {
        Seq::new(self.downloads.len(), |i: int| self.downloads[i].id)
    }

    /// Where the download `id` stands among the downloads; their number
    /// where none has that identifier.
    pub open spec fn position(self, id: u32) -> int {
        first_index(self.ids(), id)
    }

    /// Whether a download has the identifier `id`.
    pub open spec fn holds(self, id: u32) -> bool {
        self.ids().contains(id)
    }

    /// The identifiers rise from download to download and stay below the
    /// next one to hand out: so no two downloads share one, and none that
    /// was handed out is handed out again.
    pub open spec fn ids_rise(self) -> bool {
        &&& forall|i: int, j: int|
            0 <= i < j < self.downloads.len() ==> self.downloads[i].id < self.downloads[j].id
        &&& forall|i: int|
            0 <= i < self.downloads.len() ==> (#[trigger] self.downloads[i]).id < self.last_id
    }

    /// What the user has asked for, as typed: an empty start or end is none.
    pub open spec fn typed(self) -> DownloadOptionsView {
        DownloadOptionsView {
            url: self.url,
            download_path: self.download_path,
            download_type: self.download_type,
            timestamp_start: unless_empty(self.timestamp_start),
            timestamp_end: unless_empty(self.timestamp_end),
        }
    }

    /// The download that begins when one is asked for now, with `options`.
    pub open spec fn next_download(self, options: DownloadOptionsView) -> DownloadView {
        DownloadView {
            id: self.last_id,
            options,
            name: None,
            progress: DownloadProgressView::Queued,
        }
    }

    /// Whether an identifier is left for one more download.
    pub open spec fn has_id_left(self) -> bool {
        self.last_id < u32::MAX
    }

    /// The state after a download for `options` was asked for: the download
    /// stands behind the others, under the next identifier. Nothing changes
    /// where no identifier is left.
    pub open spec fn with_download(self, options: DownloadOptionsView) -> AppView {
        if self.has_id_left() {
            AppView {
                downloads: self.downloads.push(self.next_download(options)),
                last_id: (self.last_id + 1) as u32,
                ..self
            }
        } else {
            self
        }
    }

    /// What taking `message` in gives back.
    pub open spec fn outcome(self, message: MessageView) -> Result<Effect, UpdateError> {
        match message {
            MessageView::Browse => Ok(Effect::PickFolder),
            MessageView::StartDownload => {
                if self.has_id_left() {
                    Ok(Effect::Start(self.last_id))
                } else {
                    Err(UpdateError::OutOfIds)
                }
            },
            MessageView::Downloader(id, _) => {
                if self.holds(id) {
                    Ok(Effect::Nothing)
                } else {
                    Err(UpdateError::UnknownDownload(id))
                }
            },
            _ => Ok(Effect::Nothing),
        }
    }

    /// The state after `message`.
    pub open spec fn after(self, message: MessageView) -> AppView {
        match message {
            MessageView::UrlChanged(url) => AppView { url, ..self },
            MessageView::DownloadTypeChanged(download_type) => AppView { download_type, ..self },
            MessageView::DownloadPathChanged(download_path) => AppView { download_path, ..self },
            MessageView::TimestampStartChanged(timestamp_start) => AppView {
                timestamp_start,
                ..self
            },
            MessageView::TimestampEndChanged(timestamp_end) => AppView { timestamp_end, ..self },
            MessageView::Browse => self,
            MessageView::StartDownload => {
                if self.has_id_left() {
                    AppView {
                        url: Seq::empty(),
                        timestamp_start: Seq::empty(),
                        timestamp_end: Seq::empty(),
                        ..self.with_download(self.typed())
                    }
                } else {
                    self
                }
            },
            MessageView::Downloader(id, message) => {
                if self.holds(id) {
                    AppView {
                        downloads: self.downloads.update(
                            self.position(id),
                            self.downloads[self.position(id)].after(message),
                        ),
                        ..self
                    }
                } else {
                    self
                }
            },
        }
    }
}

impl View for App {
    type V = AppView;

    closed spec fn view(&self) -> AppView {
        AppView {
            url: self.url@,
            download_path: self.download_path@,
            download_type: self.download_type,
            timestamp_start: self.timestamp_start@,
            timestamp_end: self.timestamp_end@,
            downloads: download_views(self.downloads@),
            last_id: self.last_id,
        }
    }
}

/// `text` where it is not empty.
fn typed_or_none(text: &String) -> (r: Option<String>)
    ensures
        text_of(r) == unless_empty(text@),
{
    if text.as_str().is_empty() {
        None
    } else {
        Some(text.clone())
    }
}

impl App {
    #[verifier::type_invariant]
    spec fn ids_in_order(&self) -> bool {
        self@.ids_rise()
    }

    /// The state at the start: nothing typed, `Video` chosen, `download_path`
    /// as the place to write to, no downloads.
    pub fn new(download_path: String) -> (r: Self)
        ensures
            r@ == (AppView {
                url: Seq::empty(),
                download_path: download_path@,
                download_type: DownloadType::Video,
                timestamp_start: Seq::empty(),
                timestamp_end: Seq::empty(),
                downloads: Seq::empty(),
                last_id: 0,
            }),
            r@.ids_rise(),
    {
        let r = App {
            url: String::new(),
            download_path,
            download_type: DownloadType::Video,
            timestamp_start: String::new(),
            timestamp_end: String::new(),
            downloads: Vec::new(),
            last_id: 0,
        };
        assert(r@.downloads =~= Seq::empty());
        r
    }

    /// The downloads begun so far, oldest first.
    pub fn downloads(&self) -> (r: &Vec<Download>)
        ensures
            download_views(r@) == self@.downloads,
            self@.ids_rise(),
    {
        proof {
            use_type_invariant(self);
        }
        &self.downloads
    }

    /// The address typed.
    pub fn url(&self) -> (r: &str)
        ensures
            r@ == self@.url,
    {
        self.url.as_str()
    }

    /// The place to write to.
    pub fn download_path(&self) -> (r: &str)
        ensures
            r@ == self@.download_path,
    {
        self.download_path.as_str()
    }

    /// The kind of media chosen.
    pub fn download_type(&self) -> (r: DownloadType)
        ensures
            r == self@.download_type,
    {
        self.download_type
    }

    /// The start typed.
    pub fn timestamp_start(&self) -> (r: &str)
        ensures
            r@ == self@.timestamp_start,
    {
        self.timestamp_start.as_str()
    }

    /// The end typed.
    pub fn timestamp_end(&self) -> (r: &str)
        ensures
            r@ == self@.timestamp_end,
    {
        self.timestamp_end.as_str()
    }

    /// Where the download `id` stands among the downloads.
    fn find(&self, id: u32) -> (r: Option<usize>)
        ensures
            r is Some <==> self@.holds(id),
            r matches Some(i) ==> i == self@.position(id) && i < self.downloads@.len(),
    {
        proof {
            lemma_first_index(self@.ids(), id);
        }
        let mut i: usize = 0;
        while i < self.downloads.len()
            invariant
                i <= self.downloads@.len(),
                forall|j: int| 0 <= j < i ==> self@.ids()[j] != id,
            decreases self.downloads@.len() - i,
        {
            if self.downloads[i].id == id {
                proof {
                    assert(self@.ids()[i as int] == id);
                    lemma_first_index_is(self@.ids(), id, i as int);
                }
                return Some(i);
            }
            i += 1;
        }
        proof {
            lemma_first_index_is(self@.ids(), id, i as int);
        }
        None
    }

    /// Takes a download for `options` into the registry, `Queued` and
    /// without a name, and gives the identifier that it got: the next one,
    /// which no download has had before. Where all identifiers are spent
    /// the download is refused and nothing changes.
    pub fn submit(&mut self, options: DownloadOptions) -> (r: Result<u32, UpdateError>)
        ensures
            final(self)@ == old(self)@.with_download(options@),
            r == if old(self)@.has_id_left() {
                Ok::<u32, UpdateError>(old(self)@.last_id)
            } else {
                Err::<u32, UpdateError>(UpdateError::OutOfIds)
            },
            final(self)@.ids_rise(),
    {
        proof {
            use_type_invariant(&*self);
        }
        if self.last_id == u32::MAX {
            return Err(UpdateError::OutOfIds);
        }
        let id: u32 = self.last_id;
        let mut downloads: Vec<Download> = Vec::new();
        core::mem::swap(&mut self.downloads, &mut downloads);
        downloads.push(Download::new(options, id));
        self.last_id = id + 1;
        assert(download_views(downloads@) =~= old(self)@.downloads.push(
            old(self)@.next_download(options@),
        ));
        core::mem::swap(&mut self.downloads, &mut downloads);
        Ok(id)
    }

    /// Takes `message` in.
    ///
    /// What the user typed or chose is kept. `StartDownload` adds a download
    /// for what is typed, under the next identifier, and clears the address
    /// and the part; it is refused when the identifiers are spent. A report
    /// of a reader changes the download that it names, and is refused when
    /// there is none. `Browse` changes nothing. The result says what is left
    /// for the caller to do.
    pub fn update(&mut self, message: Message) -> (r: Result<Effect, UpdateError>)
        ensures
            final(self)@ == old(self)@.after(message@),
            r == old(self)@.outcome(message@),
            final(self)@.ids_rise(),
    {
        proof {
            use_type_invariant(&*self);
        }
        match message {
            Message::UrlChanged(url) => {
                self.url = url;
                Ok(Effect::Nothing)
            },
            Message::DownloadTypeChanged(download_type) => {
                self.download_type = download_type;
                Ok(Effect::Nothing)
            },
            Message::DownloadPathChanged(download_path) => {
                self.download_path = download_path;
                Ok(Effect::Nothing)
            },
            Message::TimestampStartChanged(timestamp_start) => {
                self.timestamp_start = timestamp_start;
                Ok(Effect::Nothing)
            },
            Message::TimestampEndChanged(timestamp_end) => {
                self.timestamp_end = timestamp_end;
                Ok(Effect::Nothing)
            },
            Message::Browse => Ok(Effect::PickFolder),
            Message::StartDownload => {
                let options = DownloadOptions {
                    url: self.url.clone(),
                    download_path: self.download_path.clone(),
                    download_type: self.download_type,
                    timestamp_start: typed_or_none(&self.timestamp_start),
                    timestamp_end: typed_or_none(&self.timestamp_end),
                };
                match self.submit(options) {
                    Ok(id) => {
                        self.url = String::new();
                        self.timestamp_start = String::new();
                        self.timestamp_end = String::new();
                        Ok(Effect::Start(id))
                    },
                    Err(error) => Err(error),
                }
            },
            Message::Downloader(id, message) => {
                match self.find(id) {
                    None => Err(UpdateError::UnknownDownload(id)),
                    Some(i) => {
                        let mut downloads: Vec<Download> = Vec::new();
                        core::mem::swap(&mut self.downloads, &mut downloads);
                        downloads[i].apply(message);
                        assert(download_views(downloads@) =~= old(self)@.downloads.update(
                            i as int,
                            old(self)@.downloads[i as int].after(message@),
                        ));
                        core::mem::swap(&mut self.downloads, &mut downloads);
                        assert(self@.downloads =~= old(self)@.downloads.update(
                            i as int,
                            old(self)@.downloads[i as int].after(message@),
                        ));
                        Ok(Effect::Nothing)
                    },
                }
            },
        }
    }
}

impl AppView {
    /// The state after each of `messages` in turn.
    pub open spec fn after_all(self, messages: Seq<MessageView>) -> AppView
        decreases messages.len(),
    {
        if messages.len() == 0 {
            self
        } else {
            self.after(messages[0]).after_all(messages.drop_first())
        }
    }
}

/// Where identifiers rise, the download that holds an identifier is the
/// only one that holds it.
pub proof fn lemma_one_download_per_id(app: AppView, id: u32, i: int)
    requires
        app.ids_rise(),
        0 <= i < app.downloads.len(),
        app.downloads[i].id == id,
    ensures
        app.holds(id),
        app.position(id) == i,
        forall|j: int| 0 <= j < app.downloads.len() && app.downloads[j].id == id ==> j == i,
{
    assert(app.ids()[i] == id);
    assert forall|j: int| 0 <= j < i implies app.ids()[j] != id by {
        assert(app.downloads[j].id < app.downloads[i].id);
    }
    lemma_first_index_is(app.ids(), id, i);
    assert forall|j: int| 0 <= j < app.downloads.len() && app.downloads[j].id == id implies j
        == i by {
        if j < i {
            assert(app.downloads[j].id < app.downloads[i].id);
        }
        if i < j {
            assert(app.downloads[i].id < app.downloads[j].id);
        }
    }
}

/// No message takes a download away, moves one, or changes the identifier
/// of one; identifiers that rise go on rising; and the identifier of a
/// download that is added was never held before.
pub proof fn lemma_ids_are_kept(app: AppView, message: MessageView)
    requires
        app.ids_rise(),
    ensures
        app.after(message).ids_rise(),
        app.last_id <= app.after(message).last_id,
        app.downloads.len() <= app.after(message).downloads.len(),
        forall|i: int|
            0 <= i < app.downloads.len() ==> (#[trigger] app.after(message).downloads[i]).id
                == app.downloads[i].id,
        forall|i: int|
            app.downloads.len() <= i < app.after(message).downloads.len() ==> !app.holds(
                (#[trigger] app.after(message).downloads[i]).id,
            ),
{
    let next = app.after(message);
    lemma_first_index(app.ids(), app.last_id);
    match message {
        MessageView::Downloader(id, _) => {
            lemma_first_index(app.ids(), id);
        },
        MessageView::StartDownload => {
            lemma_next_id_is_new(app, app.typed());
        },
        _ => {},
    }
}

/// The identifier that a download gets was held by none before, and is held
/// by that download alone afterwards; the downloads that were there stay as
/// they were.
pub proof fn lemma_next_id_is_new(app: AppView, options: DownloadOptionsView)
    requires
        app.ids_rise(),
    ensures
        !app.holds(app.last_id),
        app.with_download(options).ids_rise(),
        app.has_id_left() ==> app.with_download(options).holds(app.last_id),
        app.has_id_left() ==> app.with_download(options).position(app.last_id)
            == app.downloads.len(),
        forall|i: int|
            0 <= i < app.downloads.len() ==> (#[trigger] app.with_download(options).downloads[i])
                == app.downloads[i],
{
    lemma_first_index(app.ids(), app.last_id);
    if app.holds(app.last_id) {
        let at = app.position(app.last_id);
        assert(app.ids()[at] == app.last_id);
        assert(app.downloads[at].id < app.last_id);
    }
    if app.has_id_left() {
        let next = app.with_download(options);
        lemma_one_download_per_id(next, app.last_id, app.downloads.len() as int);
    }
}

/// A report changes the download that it names and leaves every other
/// download as it is.
pub proof fn lemma_report_changes_one_download(
    app: AppView,
    id: u32,
    message: DownloaderMessageView,
    i: int,
)
    requires
        app.ids_rise(),
        0 <= i < app.downloads.len(),
    ensures
        app.after(MessageView::Downloader(id, message)).downloads.len() == app.downloads.len(),
        app.downloads[i].id == id ==> app.after(MessageView::Downloader(id, message)).downloads[i]
            == app.downloads[i].after(message),
        app.downloads[i].id != id ==> app.after(MessageView::Downloader(id, message)).downloads[i]
            == app.downloads[i],
{
    lemma_first_index(app.ids(), id);
    if app.downloads[i].id == id {
        lemma_one_download_per_id(app, id, i);
    } else if app.holds(id) {
        assert(app.ids()[app.position(id)] == id);
    }
}

/// A download that is finished stays where it is and as it is, whatever
/// message reaches the application.
pub proof fn lemma_finished_download_is_kept(app: AppView, message: MessageView, i: int)
    requires
        app.ids_rise(),
        0 <= i < app.downloads.len(),
        app.downloads[i].progress is Finished,
    ensures
        i < app.after(message).downloads.len(),
        app.after(message).downloads[i] == app.downloads[i],
{
    match message {
        MessageView::Downloader(id, _) => {
            lemma_first_index(app.ids(), id);
            if app.holds(id) && app.position(id) == i {
                assert(app.ids()[i] == id);
            }
        },
        _ => {},
    }
}

/// A download that is finished stays where it is and as it is, whatever
/// messages reach the application, however many.
pub proof fn lemma_finished_download_is_final(app: AppView, messages: Seq<MessageView>, i: int)
    requires
        app.ids_rise(),
        0 <= i < app.downloads.len(),
        app.downloads[i].progress is Finished,
    ensures
        i < app.after_all(messages).downloads.len(),
        app.after_all(messages).downloads[i] == app.downloads[i],
    decreases messages.len(),
{
    if messages.len() > 0 {
        lemma_finished_download_is_kept(app, messages[0], i);
        lemma_ids_are_kept(app, messages[0]);
        lemma_finished_download_is_final(app.after(messages[0]), messages.drop_first(), i);
    }
}

} // verus!
