//! The state behind the window of the tool, free of any toolkit: the path of
//! the address file, the status line, the log that is shown and whether a
//! batch was begun. The window tells the state what the user did, asks it
//! what a frame is to show, and draws that.

use vstd::prelude::*;
use vstd::string::StringExecFns;

verus! {

/// The path that a new window proposes.
pub const DEFAULT_FILE_PATH: &'static str = "websites.txt";

/// The status from the begin of a batch until its final status is known.
pub const INITIALIZING_STATUS: &'static str = "initializing...";

/// The first log line of a batch that was begun.
pub const STARTING_LINE: &'static str = "starting...";

/// The notice beside the path of a file that exists.
pub const FILE_FOUND_NOTICE: &'static str = "file found";

/// The notice beside the path of a file that does not exist.
pub const FILE_MISSING_NOTICE: &'static str = "file not found";

/// Where the font of first choice lies below the system root.
pub const FIRST_FONT: &'static str = "\\Fonts\\msyh.ttc";

/// Where the font of second choice lies below the system root.
pub const SECOND_FONT: &'static str = "\\Fonts\\simsun.ttc";

/// What the window shows and what the user may do with it.
#[derive(Debug)]
pub struct PicMyWebApp {
    /// The status line; empty until a batch was begun.
    pub status: String,
    /// The log lines, oldest first.
    pub logs: Vec<String>,
    /// Whether a batch was begun.
    pub is_processing: bool,
    /// The path of the address file, as the user typed or picked it.
    pub file_path: String,
}

/// What one frame of the window shows besides the path, the status line and
/// the log lines themselves.
#[derive(Debug)]
pub struct Frame {
    /// The notice beside the path, if there is one.
    pub notice: Option<String>,
    /// Whether the start button is enabled.
    pub start_enabled: bool,
    /// Whether the spinner is shown.
    pub busy: bool,
    /// Whether the status line is shown.
    pub status_shown: bool,
    /// Whether the log area says that there is no log yet.
    pub log_is_empty: bool,
}

impl Default for PicMyWebApp {
    /// Nothing shown, nothing begun, no path.
    fn default() -> (app: PicMyWebApp)
        ensures
            app.status@.len() == 0,
            app.logs@.len() == 0,
            !app.is_processing,
            app.file_path@.len() == 0,
    {
        PicMyWebApp {
            status: String::new(),
            logs: Vec::new(),
            is_processing: false,
            file_path: String::new(),
        }
    }
}

impl PicMyWebApp {
    /// The state of a new window: nothing shown, nothing begun, and the
    /// default path proposed.
    pub fn new() -> (app: PicMyWebApp)
        ensures
            app.status@.len() == 0,
            app.logs@.len() == 0,
            !app.is_processing,
            app.file_path@ == DEFAULT_FILE_PATH@,
    {
        PicMyWebApp {
            status: String::new(),
            logs: Vec::new(),
            is_processing: false,
            file_path: DEFAULT_FILE_PATH.to_owned(),
        }
    }

    /// A batch may be begun while none was begun and a path is given.
    pub open spec fn startable(&self) -> bool {
        !self.is_processing && self.file_path@.len() > 0
    }

    /// The notice beside the path, given whether a file exists there: none
    /// while no path is given.
    pub open spec fn notice_text(&self, exists: bool) -> Option<Seq<char>> {
        if self.file_path@.len() == 0 {
            None
        } else if exists {
            Some(FILE_FOUND_NOTICE@)
        } else {
            Some(FILE_MISSING_NOTICE@)
        }
    }

    /// Whether the start button is enabled.
    pub fn can_start(&self) -> (enabled: bool)
        ensures
            enabled == self.startable(),
    {
        !self.is_processing && !self.file_path.as_str().is_empty()
    }

    /// The user pressed the start button. Where a batch may be begun, the
    /// state is marked as processing, the status says so and the log is
    /// replaced by the starting line; otherwise nothing changes.
    pub fn begin(&mut self) -> (begun: bool)
        ensures
            begun == old(self).startable(),
            final(self).file_path == old(self).file_path,
            begun ==> {
                &&& final(self).is_processing
                &&& final(self).status@ == INITIALIZING_STATUS@
                &&& final(self).logs.deep_view() == seq![STARTING_LINE@]
            },
            !begun ==> *final(self) == *old(self),
    {
        if !self.can_start() {
            return false;
        }
        self.is_processing = true;
        self.status = INITIALIZING_STATUS.to_owned();
        self.logs.clear();
        self.logs.push(STARTING_LINE.to_owned());
        assert(self.logs.deep_view() =~= seq![STARTING_LINE@]);
        true
    }

    /// The batch has ended with this final status: it replaces the status
    /// line. The log and the processing mark stay as they are.
    pub fn finish(&mut self, status: String)
        ensures
            final(self).status == status,
            final(self).logs == old(self).logs,
            final(self).is_processing == old(self).is_processing,
            final(self).file_path == old(self).file_path,
    {
        self.status = status;
    }

    /// The notice shown beside the path, given whether a file exists there.
    pub fn file_notice(&self, exists: bool) -> (notice: Option<String>)
        ensures
            (match notice {
                None => self.notice_text(exists) == None::<Seq<char>>,
                Some(text) => self.notice_text(exists) == Some(text@),
            }),
    {
        if self.file_path.as_str().is_empty() {
            None
        } else if exists {
            Some(FILE_FOUND_NOTICE.to_owned())
        } else {
            Some(FILE_MISSING_NOTICE.to_owned())
        }
    }

    /// What the next frame shows, given whether a file exists at the path:
    /// the notice beside the path; the start button, enabled while a batch
    /// may be begun; the spinner once one was begun; the status line once
    /// there is a status; and the log, or a word that there is none yet.
    pub fn frame(&self, file_exists: bool) -> (frame: Frame)
        ensures
            (match frame.notice {
                None => self.notice_text(file_exists) == None::<Seq<char>>,
                Some(text) => self.notice_text(file_exists) == Some(text@),
            }),
            frame.start_enabled == self.startable(),
            frame.busy == self.is_processing,
            frame.status_shown == (self.status@.len() > 0),
            frame.log_is_empty == (self.logs@.len() == 0),
    {
        Frame {
            notice: self.file_notice(file_exists),
            start_enabled: self.can_start(),
            busy: self.is_processing,
            status_shown: !self.status.as_str().is_empty(),
            log_is_empty: self.logs.len() == 0,
        }
    }
}

/// The font files that the window tries, in this order, below the system
/// root.
pub fn font_paths(system_root: &str) -> (paths: Vec<String>)
    ensures
        paths.deep_view() == seq![system_root@ + FIRST_FONT@, system_root@ + SECOND_FONT@],
{
    let mut first = system_root.to_owned();
    first.append(FIRST_FONT);
    let mut second = system_root.to_owned();
    second.append(SECOND_FONT);
    let mut paths: Vec<String> = Vec::new();
    paths.push(first);
    paths.push(second);
    assert(paths.deep_view() =~= seq![system_root@ + FIRST_FONT@, system_root@ + SECOND_FONT@]);
    paths
}

} // verus!
