//! The progress line of a static scan: counts of scanned and skipped files, and the
//! directory being scanned.
//!
//! Each operation returns the text to write to standard error, if any.

use vstd::prelude::*;
use vstd::string::StringExecFns;
use crate::path::{file_name, file_name_spec};
use crate::text::{decimal, push_decimal, push_str};

verus! {

/// The state of a progress line.
pub struct ProgressView {
    /// Name of the directory being scanned, once one is set.
    pub current_directory: Option<Seq<char>>,
    /// Nothing is shown.
    pub quiet_mode: bool,
    /// Files to process.
    pub total_files: usize,
    /// Binaries examined.
    pub scanned_files: usize,
    /// Other files passed over.
    pub skipped_files: usize,
    /// Scanning has started and not completed.
    pub scanning: bool,
}

/// Progress indicator of a static scan.
pub struct ScanProgress {
    current_directory: Option<String>,
    quiet_mode: bool,
    total_files: usize,
    scanned_files: usize,
    skipped_files: usize,
    scanning: bool,
}

impl View for ScanProgress {
    type V = ProgressView;

    closed spec fn view(&self) -> ProgressView {
        ProgressView {
            current_directory: match self.current_directory {
                Some(d) => Some(d@),
                None => None,
            },
            quiet_mode: self.quiet_mode,
            total_files: self.total_files,
            scanned_files: self.scanned_files,
            skipped_files: self.skipped_files,
            scanning: self.scanning,
        }
    }
}

/// The counts can be added up.
pub open spec fn counts_fit(v: ProgressView) -> bool {
    v.scanned_files + v.skipped_files <= usize::MAX
}

/// The progress line: processed files out of the total, scanned and skipped, and the
/// directory when one is set; it starts with a carriage return so that it overwrites
/// the previous one.
pub open spec fn progress_line(v: ProgressView) -> Seq<char> {
    "\rProcessed "@ + decimal((v.scanned_files + v.skipped_files) as nat) + "/"@ + decimal(v.total_files as nat)
        + " files (scanned: "@ + decimal(v.scanned_files as nat) + ", skipped: "@ + decimal(
        v.skipped_files as nat,
    ) + ")"@ + (match v.current_directory {
        Some(d) => " ["@ + d + "]"@,
        None => Seq::empty(),
    })
}

/// The final line, after the progress line is cleared.
pub open spec fn completion_text(v: ProgressView) -> Seq<char> {
    "\r\u{2713} Processed "@ + decimal((v.scanned_files + v.skipped_files) as nat) + "/"@ + decimal(
        v.total_files as nat,
    ) + " files (scanned: "@ + decimal(v.scanned_files as nat) + ", skipped: "@ + decimal(
        v.skipped_files as nat,
    ) + ")"@ + " - completed\n"@
}

/// The name shown for a directory: its last component, or the whole path when
/// that is not a name.
pub open spec fn directory_label(dir: Seq<char>) -> Seq<char> {
    match file_name_spec(dir) {
        Some(n) => n,
        None => dir,
    }
}

/// The state after counting a scanned binary (unchanged in quiet mode).
pub open spec fn bump_scanned(v: ProgressView) -> ProgressView {
    if v.quiet_mode {
        v
    } else {
        ProgressView { scanned_files: (v.scanned_files + 1) as usize, ..v }
    }
}

/// What counting a scanned binary shows: the progress line every ten binaries and at
/// the last file (nothing in quiet mode).
pub open spec fn scanned_output(v: ProgressView) -> Option<Seq<char>> {
    let w = bump_scanned(v);
    if !v.quiet_mode && (w.scanned_files % 10 == 0 || w.scanned_files == w.total_files) {
        Some(progress_line(w))
    } else {
        None
    }
}

/// The state after counting a file passed over (unchanged in quiet mode).
pub open spec fn bump_skipped(v: ProgressView) -> ProgressView {
    if v.quiet_mode {
        v
    } else {
        ProgressView { skipped_files: (v.skipped_files + 1) as usize, ..v }
    }
}

/// What counting a file passed over shows: the progress line every hundred such
/// files (nothing in quiet mode).
pub open spec fn skipped_output(v: ProgressView) -> Option<Seq<char>> {
    let w = bump_skipped(v);
    if !v.quiet_mode && w.skipped_files % 100 == 0 {
        Some(progress_line(w))
    } else {
        None
    }
}

fn push_counts(t: &mut String, processed: usize, total: usize, scanned: usize, skipped: usize)
    ensures
        final(t)@ == old(t)@ + decimal(processed as nat) + "/"@ + decimal(total as nat) + " files (scanned: "@
            + decimal(scanned as nat) + ", skipped: "@ + decimal(skipped as nat) + ")"@,
{
    push_decimal(t, processed as u64);
    push_str(t, "/");
    push_decimal(t, total as u64);
    push_str(t, " files (scanned: ");
    push_decimal(t, scanned as u64);
    push_str(t, ", skipped: ");
    push_decimal(t, skipped as u64);
    push_str(t, ")");
}

impl ScanProgress {
    /// A progress indicator with nothing counted and no directory.
    pub fn new() -> (p: Self)
        ensures
            p@ == (ProgressView {
                current_directory: None,
                quiet_mode: false,
                total_files: 0,
                scanned_files: 0,
                skipped_files: 0,
                scanning: false,
            }),
    {
        ScanProgress {
            current_directory: None,
            quiet_mode: false,
            total_files: 0,
            scanned_files: 0,
            skipped_files: 0,
            scanning: false,
        }
    }

    /// Sets the number of files to process.
    pub fn set_total_files(&mut self, total: usize)
        ensures
            final(self)@ == (ProgressView { total_files: total, ..old(self)@ }),
    {
        self.total_files = total;
    }

    /// The current progress line (nothing in quiet mode).
    pub fn update_progress(&self) -> (r: Option<String>)
        requires
            counts_fit(self@),
        ensures
            self@.quiet_mode ==> r is None,
            !self@.quiet_mode ==> (r matches Some(t) && t@ == progress_line(self@)),
    {
        if self.quiet_mode {
            return None;
        }
        let mut t = String::new();
        push_str(&mut t, "\rProcessed ");
        push_counts(&mut t, self.scanned_files + self.skipped_files, self.total_files, self.scanned_files, self.skipped_files);
        let ghost a = t@;
        match &self.current_directory {
            Some(d) => {
                push_str(&mut t, " [");
                push_str(&mut t, d.as_str());
                push_str(&mut t, "]");
            },
            None => {},
        }
        assert(t@ =~= progress_line(self@));
        Some(t)
    }

    /// Starts scanning `total_files` files: the counts start from zero, and the first
    /// progress line is shown (in quiet mode nothing changes).
    pub fn start_scanning(&mut self, total_files: usize) -> (r: Option<String>)
        ensures
            old(self)@.quiet_mode ==> final(self)@ == old(self)@ && r is None,
            !old(self)@.quiet_mode ==> final(self)@ == (ProgressView {
                total_files,
                scanned_files: 0,
                skipped_files: 0,
                scanning: true,
                ..old(self)@
            }) && (r matches Some(t) && t@ == progress_line(final(self)@)),
    {
        if self.quiet_mode {
            return None;
        }
        self.total_files = total_files;
        self.scanned_files = 0;
        self.skipped_files = 0;
        self.scanning = true;
        self.update_progress()
    }

    /// Counts a scanned binary; the progress line is shown every ten binaries and at
    /// the last file (see `scanned_output`).
    pub fn increment_scanned(&mut self) -> (r: Option<String>)
        requires
            old(self)@.scanned_files + old(self)@.skipped_files < usize::MAX,
        ensures
            final(self)@ == bump_scanned(old(self)@),
            r.deep_view() == scanned_output(old(self)@),
    {
        if self.quiet_mode {
            return None;
        }
        self.scanned_files = self.scanned_files + 1;
        if self.scanned_files % 10 == 0 || self.scanned_files == self.total_files {
            self.update_progress()
        } else {
            None
        }
    }

    /// Counts a file passed over; the progress line is shown every hundred such files
    /// (see `skipped_output`).
    pub fn increment_skipped(&mut self) -> (r: Option<String>)
        requires
            old(self)@.scanned_files + old(self)@.skipped_files < usize::MAX,
        ensures
            final(self)@ == bump_skipped(old(self)@),
            r.deep_view() == skipped_output(old(self)@),
    {
        if self.quiet_mode {
            return None;
        }
        self.skipped_files = self.skipped_files + 1;
        if self.skipped_files % 100 == 0 {
            self.update_progress()
        } else {
            None
        }
    }

    /// Shows `dir` (by its name) as the directory being scanned.
    pub fn set_current_directory(&mut self, dir: &str) -> (r: Option<String>)
        requires
            counts_fit(old(self)@),
        ensures
            old(self)@.quiet_mode ==> final(self)@ == old(self)@ && r is None,
            !old(self)@.quiet_mode ==> final(self)@ == (ProgressView {
                current_directory: Some(directory_label(dir@)),
                ..old(self)@
            }) && (r matches Some(t) && t@ == progress_line(final(self)@)),
    {
        if self.quiet_mode {
            return None;
        }
        let name = match file_name(dir) {
            Some(n) => n,
            None => String::from_str(dir),
        };
        self.current_directory = Some(name);
        self.update_progress()
    }

    /// Ends scanning: the progress line is replaced by the final counts.
    pub fn complete_scanning(&mut self) -> (r: Option<String>)
        requires
            counts_fit(old(self)@),
        ensures
            old(self)@.quiet_mode ==> final(self)@ == old(self)@ && r is None,
            !old(self)@.quiet_mode ==> final(self)@ == (ProgressView { scanning: false, ..old(self)@ }) && (r matches Some(
                t,
            ) && t@ == completion_text(old(self)@)),
    {
        if self.quiet_mode {
            return None;
        }
        self.stop_current_animation();
        let mut t = String::new();
        push_str(&mut t, "\r\u{2713} Processed ");
        push_counts(&mut t, self.scanned_files + self.skipped_files, self.total_files, self.scanned_files, self.skipped_files);
        push_str(&mut t, " - completed\n");
        assert(t@ =~= completion_text(old(self)@));
        Some(t)
    }

    fn stop_current_animation(&mut self)
        ensures
            final(self)@ == (ProgressView { scanning: false, ..old(self)@ }),
    {
        if self.scanning {
            self.scanning = false;
        }
    }

    /// Stops scanning and leaves a clean line.
    pub fn finish(&mut self) -> (r: Option<String>)
        ensures
            final(self)@ == (ProgressView { scanning: false, ..old(self)@ }),
            old(self)@.quiet_mode ==> r is None,
            !old(self)@.quiet_mode ==> (r matches Some(t) && t@ == "\r"@),
    {
        self.stop_current_animation();
        if !self.quiet_mode {
            Some(String::from_str("\r"))
        } else {
            None
        }
    }

    /// A message line (nothing in quiet mode).
    pub fn show_message(&self, message: &str) -> (r: Option<String>)
        ensures
            self@.quiet_mode ==> r is None,
            !self@.quiet_mode ==> (r matches Some(t) && t@ == message@ + "\n"@),
    {
        if self.quiet_mode {
            return None;
        }
        let mut t = String::from_str(message);
        push_str(&mut t, "\n");
        Some(t)
    }
}

} // verus!
