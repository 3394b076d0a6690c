//! Files that an agent asks to upload: which are read, and what is reported of
//! the others.

use vstd::prelude::*;

use crate::config::AgentAttachmentsConfig;
use crate::paths::{file_name, is_under, joined_path, path_file_name, path_join, under};
use crate::text::{
    alnum, chars_of, copy_texts, decimal, is_alnum, is_text, render_u64, render_usize,
    string_of, texts, trim, trimmed,
};

verus! {

/// A broker-validated outbound file upload.
#[derive(Debug)]
pub struct OutboundAttachment {
    pub filename: String,
    pub bytes: Vec<u8>,
}

impl Clone for OutboundAttachment {
    fn clone(&self) -> (r: Self)
        ensures
            r@ == self@,
    {
        let mut bytes: Vec<u8> = Vec::new();
        let mut i: usize = 0;
        while i < self.bytes.len()
            invariant
                i <= self.bytes@.len(),
                bytes@ == self.bytes@.take(i as int),
            decreases self.bytes@.len() - i,
        {
            bytes.push(self.bytes[i]);
            i += 1;
            assert(self.bytes@.take(i as int) =~= self.bytes@.take(i - 1).push(
                self.bytes@[i - 1],
            ));
        }
        assert(self.bytes@.take(i as int) =~= self.bytes@);
        OutboundAttachment { filename: self.filename.clone(), bytes }
    }
}

/// What an upload holds.
pub struct Upload {
    pub filename: Seq<char>,
    pub bytes: Seq<u8>,
}

impl View for OutboundAttachment {
    type V = Upload;

    open spec fn view(&self) -> Upload {
        Upload { filename: self.filename@, bytes: self.bytes@ }
    }
}

/// What a list of uploads holds.
pub open spec fn uploads(v: Seq<OutboundAttachment>) -> Seq<Upload> {
    v.map_values(|a: OutboundAttachment| a@)
}

/// What is to be asked of the file system next.
#[derive(Debug)]
pub enum AttachmentPhase {
    /// Resolve the directories of the allowlist.
    Roots,
    /// Resolve this path.
    Resolve(String),
    /// Look at the file behind this resolved path.
    Inspect(String),
    /// Read the file behind this resolved path.
    Read(String),
    /// Nothing: the uploads and the warnings are complete.
    Finished,
}

/// An answer of the file system; errors come as text.
#[derive(Debug)]
pub enum AttachmentAnswer {
    /// The resolved directories of the allowlist that exist.
    Roots(Vec<String>),
    /// The resolved path.
    Resolved(Result<String, String>),
    /// Whether the path is a regular file, and its length.
    Inspected(Result<(bool, u64), String>),
    /// The file's contents.
    Contents(Result<Vec<u8>, String>),
}

/// What a phase says.
pub enum Phase {
    Roots,
    Resolve(Seq<char>),
    Inspect(Seq<char>),
    Read(Seq<char>),
    Finished,
}

impl View for AttachmentPhase {
    type V = Phase;

    open spec fn view(&self) -> Phase {
        match self {
            AttachmentPhase::Roots => Phase::Roots,
            AttachmentPhase::Resolve(p) => Phase::Resolve(p@),
            AttachmentPhase::Inspect(p) => Phase::Inspect(p@),
            AttachmentPhase::Read(p) => Phase::Read(p@),
            AttachmentPhase::Finished => Phase::Finished,
        }
    }
}

/// The work on one turn's requested files.
#[derive(Debug)]
pub struct AttachmentJob {
    requested: Vec<String>,
    base_dir: String,
    max_file_bytes: u64,
    max_total_bytes: u64,
    roots: Vec<String>,
    idx: usize,
    total_bytes: u64,
    phase: AttachmentPhase,
    attachments: Vec<OutboundAttachment>,
    warnings: Vec<String>,
}

/// What the state of such work says.
pub struct JobState {
    pub requested: Seq<Seq<char>>,
    pub base_dir: Seq<char>,
    pub max_file_bytes: u64,
    pub max_total_bytes: u64,
    pub roots: Seq<Seq<char>>,
    pub idx: nat,
    pub total_bytes: u64,
    pub phase: Phase,
    pub files: Seq<Upload>,
    pub warnings: Seq<Seq<char>>,
}

impl View for AttachmentJob {
    type V = JobState;

    closed spec fn view(&self) -> JobState {
        JobState {
            requested: texts(self.requested@),
            base_dir: self.base_dir@,
            max_file_bytes: self.max_file_bytes,
            max_total_bytes: self.max_total_bytes,
            roots: texts(self.roots@),
            idx: self.idx as nat,
            total_bytes: self.total_bytes,
            phase: self.phase@,
            files: uploads(self.attachments@),
            warnings: texts(self.warnings@),
        }
    }
}

/// The warning for one skipped file.
pub open spec fn skipped(message: Seq<char>) -> Seq<char> {
    "⚠️ attachment skipped: "@ + message
}

/// Where a requested path points.
pub open spec fn requested_path(raw: Seq<char>, base_dir: Seq<char>) -> Seq<char> {
    path_join(base_dir, trim(raw))
}

/// Characters that may stand in an upload's file name.
pub open spec fn filename_char(c: char) -> bool {
    is_alnum(c) || c == '.' || c == '_' || c == '-'
}

/// The name used where a path gives none.
pub open spec fn fallback_name(idx: nat) -> Seq<char> {
    "attachment-"@ + decimal(idx)
}

/// At most 128 characters of `raw`, each replaced by an underscore unless it may
/// stand in a file name.
pub open spec fn masked_name(raw: Seq<char>) -> Seq<char> {
    let kept = if raw.len() > 128 {
        raw.take(128)
    } else {
        raw
    };
    kept.map_values(
        |c: char|
            if filename_char(c) {
                c
            } else {
                '_'
            },
    )
}

/// The file name under which a file is uploaded; `idx` is its number in the request.
pub open spec fn upload_name(path: Seq<char>, idx: nat) -> Seq<char> {
    let raw = match file_name(path) {
        Some(name) => if trim(name).len() > 0 {
            name
        } else {
            fallback_name(idx)
        },
        None => fallback_name(idx),
    };
    let out = masked_name(raw);
    if out.len() == 0 || out == "."@ || out == ".."@ {
        fallback_name(idx)
    } else {
        out
    }
}

/// Whether a resolved path lies below one of the allowed directories.
pub open spec fn allowed(path: Seq<char>, roots: Seq<Seq<char>>) -> bool {
    exists|i: int| 0 <= i < roots.len() && is_under(path, #[trigger] roots[i])
}

/// The work ended with nothing to upload and one warning.
pub open spec fn refused(j: JobState, warning: Seq<char>) -> JobState {
    JobState { phase: Phase::Finished, warnings: seq![warning], ..j }
}

/// Moves on to the file `idx`, past empty paths; after the last file the total
/// size decides whether anything is uploaded.
pub open spec fn next_file(j: JobState) -> JobState
    decreases j.requested.len() - j.idx,
{
    if j.idx >= j.requested.len() {
        if j.total_bytes > j.max_total_bytes {
            JobState {
                phase: Phase::Finished,
                files: Seq::empty(),
                warnings: j.warnings.push(
                    skipped(
                        "total attachment size is too large ("@ + decimal(j.total_bytes as nat)
                            + " > "@ + decimal(j.max_total_bytes as nat) + " bytes)"@,
                    ),
                ),
                ..j
            }
        } else {
            JobState { phase: Phase::Finished, ..j }
        }
    } else if trim(j.requested[j.idx as int]).len() == 0 {
        next_file(
            JobState {
                idx: j.idx + 1,
                warnings: j.warnings.push(skipped("empty path"@)),
                ..j
            },
        )
    } else {
        JobState {
            phase: Phase::Resolve(requested_path(j.requested[j.idx as int], j.base_dir)),
            ..j
        }
    }
}

/// Leaves the current file out, for the reason `message`.
pub open spec fn skip_file(j: JobState, message: Seq<char>) -> JobState {
    next_file(JobState { idx: j.idx + 1, warnings: j.warnings.push(skipped(message)), ..j })
}

/// The sum of two lengths, at most the largest representable one.
pub open spec fn sum_bytes(total: u64, n: nat) -> u64 {
    if total + n > u64::MAX {
        u64::MAX
    } else {
        (total + n) as u64
    }
}

/// The work after an answer; an answer that was not asked for changes nothing.
pub open spec fn job_after(j: JobState, answer: AttachmentAnswer) -> JobState {
    let name = trim(j.requested[j.idx as int]);
    match (j.phase, answer) {
        (Phase::Roots, AttachmentAnswer::Roots(roots)) => if roots@.len() == 0 {
            refused(j, skipped("no valid attachment allowlist roots are configured"@))
        } else {
            next_file(JobState { roots: texts(roots@), ..j })
        },
        (Phase::Resolve(_), AttachmentAnswer::Resolved(r)) => match r {
            Ok(path) => if allowed(path@, j.roots) {
                JobState { phase: Phase::Inspect(path@), ..j }
            } else {
                skip_file(j, name + " is outside the configured allowlist"@)
            },
            Err(e) => skip_file(j, name + " is missing or cannot be resolved ("@ + e@ + ")"@),
        },
        (Phase::Inspect(path), AttachmentAnswer::Inspected(r)) => match r {
            Ok((is_file, len)) => if !is_file {
                skip_file(j, name + " is not a regular file"@)
            } else if len > j.max_file_bytes {
                skip_file(
                    j,
                    name + " is too large ("@ + decimal(len as nat) + " > "@ + decimal(
                        j.max_file_bytes as nat,
                    ) + " bytes)"@,
                )
            } else {
                JobState { phase: Phase::Read(path), ..j }
            },
            Err(e) => skip_file(j, name + " cannot be inspected ("@ + e@ + ")"@),
        },
        (Phase::Read(_), AttachmentAnswer::Contents(r)) => match r {
            Ok(bytes) => next_file(
                JobState {
                    idx: j.idx + 1,
                    total_bytes: sum_bytes(j.total_bytes, bytes@.len()),
                    files: j.files.push(
                        Upload {
                            filename: upload_name(
                                requested_path(j.requested[j.idx as int], j.base_dir),
                                j.idx + 1,
                            ),
                            bytes: bytes@,
                        },
                    ),
                    ..j
                },
            ),
            Err(e) => skip_file(j, name + " cannot be read ("@ + e@ + ")"@),
        },
        _ => j,
    }
}

/// The work at its start: refused as a whole where uploads are disabled or too
/// many files are requested.
pub open spec fn job_start(
    requested: Seq<Seq<char>>,
    config: AgentAttachmentsConfig,
    base_dir: Seq<char>,
) -> JobState {
    let j = JobState {
        requested,
        base_dir,
        max_file_bytes: config.max_file_bytes,
        max_total_bytes: config.max_total_bytes,
        roots: Seq::empty(),
        idx: 0,
        total_bytes: 0,
        phase: Phase::Roots,
        files: Seq::empty(),
        warnings: Seq::empty(),
    };
    if requested.len() == 0 {
        JobState { phase: Phase::Finished, ..j }
    } else if !config.enabled {
        refused(
            j,
            "⚠️ attachment upload is disabled for this bot; "@ + decimal(requested.len())
                + " requested file(s) were not sent."@,
        )
    } else if requested.len() > config.max_files {
        refused(
            j,
            skipped(
                "too many files requested ("@ + decimal(requested.len()) + " > "@ + decimal(
                    config.max_files as nat,
                ) + ")"@,
            ),
        )
    } else {
        j
    }
}

/// Work that is consistent: a file under work exists in the request, and a file
/// is looked at or read only below an allowed directory.
pub open spec fn job_ok(j: JobState) -> bool {
    match j.phase {
        Phase::Roots => j.idx == 0 && j.requested.len() > 0,
        Phase::Resolve(p) => j.idx < j.requested.len() && p == requested_path(
            j.requested[j.idx as int],
            j.base_dir,
        ),
        Phase::Inspect(p) => j.idx < j.requested.len() && allowed(p, j.roots),
        Phase::Read(p) => j.idx < j.requested.len() && allowed(p, j.roots),
        Phase::Finished => true,
    }
}

/// The warning for one skipped file.
fn attachment_warning(message: &str) -> (out: String)
    ensures
        out@ == skipped(message@),
{
    let mut out = String::new();
    out.append("⚠️ attachment skipped: ");
    out.append(message);
    assert(out@ =~= skipped(message@));
    out
}

/// Where a requested path points.
pub fn requested_attachment_path(raw_path: &str, base_dir: &str) -> (out: String)
    ensures
        out@ == requested_path(raw_path@, base_dir@),
{
    let chars = chars_of(raw_path);
    let path = string_of(trimmed(chars.as_slice()));
    joined_path(base_dir, path.as_str())
}

/// The name used where a path gives none.
fn fallback_filename(idx: usize) -> (out: String)
    ensures
        out@ == fallback_name(idx as nat),
{
    let mut out = String::new();
    out.append("attachment-");
    let digits = render_usize(idx);
    out.append(digits.as_str());
    assert(out@ =~= fallback_name(idx as nat));
    out
}

/// The file name under which a file is uploaded.
pub fn sanitize_attachment_filename(path: &str, fallback_idx: usize) -> (out: String)
    ensures
        out@ == upload_name(path@, fallback_idx as nat),
{
    let raw = match path_file_name(path) {
        Some(name) => {
            let chars = chars_of(name.as_str());
            if trimmed(chars.as_slice()).len() > 0 {
                name
            } else {
                fallback_filename(fallback_idx)
            }
        },
        None => fallback_filename(fallback_idx),
    };
    let chars = chars_of(raw.as_str());
    let n: usize = if chars.len() > 128 {
        128
    } else {
        chars.len()
    };
    let mut masked: Vec<char> = Vec::new();
    let mut i: usize = 0;
    let ghost want = masked_name(raw@);
    while i < n
        invariant
            i <= n <= chars@.len(),
            n == want.len(),
            chars@ == raw@,
            want == masked_name(raw@),
            masked@ == want.take(i as int),
        decreases n - i,
    {
        let c = chars[i];
        if alnum(c) || c == '.' || c == '_' || c == '-' {
            masked.push(c);
        } else {
            masked.push('_');
        }
        i += 1;
        assert(want.take(i as int) =~= want.take(i - 1).push(want[i - 1]));
    }
    assert(want.take(n as int) =~= want);
    let m = masked.as_slice();
    if m.len() == 0 || is_text(m, ".") || is_text(m, "..") {
        fallback_filename(fallback_idx)
    } else {
        string_of(m)
    }
}

/// Whether a resolved path lies below one of the allowed directories.
fn is_allowed(path: &str, roots: &[String]) -> (r: bool)
    ensures
        r == allowed(path@, texts(roots@)),
{
    let mut i: usize = 0;
    while i < roots.len()
        invariant
            i <= roots@.len(),
            forall|j: int| 0 <= j < i ==> !is_under(path@, #[trigger] texts(roots@)[j]),
        decreases roots@.len() - i,
    {
        if under(path, roots[i].as_str()) {
            assert(is_under(path@, texts(roots@)[i as int]));
            return true;
        }
        assert(texts(roots@)[i as int] == roots@[i as int]@);
        i += 1;
    }
    false
}

/// Starts the work on the files that an agent requested: `requested` are the
/// paths of its `attach` directives, relative ones to be taken from `base_dir`.
pub fn prepare_output_attachments(
    requested: &[String],
    config: &AgentAttachmentsConfig,
    base_dir: &str,
) -> (job: AttachmentJob)
    ensures
        job@ == job_start(texts(requested@), *config, base_dir@),
        job_ok(job@),
{
    let mut job = AttachmentJob {
        requested: copy_texts(requested),
        base_dir: base_dir.to_string(),
        max_file_bytes: config.max_file_bytes,
        max_total_bytes: config.max_total_bytes,
        roots: Vec::new(),
        idx: 0,
        total_bytes: 0,
        phase: AttachmentPhase::Roots,
        attachments: Vec::new(),
        warnings: Vec::new(),
    };
    assert(texts(job.roots@) =~= Seq::<Seq<char>>::empty());
    assert(texts(job.warnings@) =~= Seq::<Seq<char>>::empty());
    assert(uploads(job.attachments@) =~= Seq::<Upload>::empty());
    assert(texts(requested@).len() == requested@.len());
    if requested.len() == 0 {
        job.phase = AttachmentPhase::Finished;
    } else if !config.enabled {
        let mut msg = String::new();
        msg.append("⚠️ attachment upload is disabled for this bot; ");
        let n = render_usize(requested.len());
        msg.append(n.as_str());
        msg.append(" requested file(s) were not sent.");
        assert(msg@ =~= "⚠️ attachment upload is disabled for this bot; "@ + decimal(
            requested@.len(),
        ) + " requested file(s) were not sent."@);
        job.refuse(msg);
    } else if requested.len() > config.max_files {
        let mut msg = String::new();
        msg.append("too many files requested (");
        let n = render_usize(requested.len());
        msg.append(n.as_str());
        msg.append(" > ");
        let m = render_usize(config.max_files);
        msg.append(m.as_str());
        msg.append(")");
        assert(msg@ =~= "too many files requested ("@ + decimal(requested@.len()) + " > "@
            + decimal(config.max_files as nat) + ")"@);
        job.refuse(attachment_warning(msg.as_str()));
    }
    job
}

impl AttachmentJob {
    /// What is to be asked of the file system next.
    pub fn phase(&self) -> (r: &AttachmentPhase)
        ensures
            r@ == self@.phase,
    {
        &self.phase
    }

    /// The uploads and the warnings.
    pub fn into_result(self) -> (r: (Vec<OutboundAttachment>, Vec<String>))
        ensures
            uploads(r.0@) == self@.files,
            texts(r.1@) == self@.warnings,
    {
        (self.attachments, self.warnings)
    }

    fn refuse(&mut self, warning: String)
        ensures
            final(self)@ == refused(old(self)@, warning@),
    {
        let ghost text = warning@;
        let mut warnings: Vec<String> = Vec::new();
        warnings.push(warning);
        self.warnings = warnings;
        self.phase = AttachmentPhase::Finished;
        assert(texts(self.warnings@) =~= seq![text]);
    }

    fn warn(&mut self, warning: String)
        ensures
            final(self)@ == (JobState {
                warnings: old(self)@.warnings.push(warning@),
                ..old(self)@
            }),
    {
        let ghost text = warning@;
        self.warnings.push(warning);
        assert(texts(self.warnings@) =~= texts(old(self).warnings@).push(text));
    }

    /// The text of the path under work, as it is named in warnings.
    fn current_name(&self) -> (r: String)
        requires
            self@.idx < self@.requested.len(),
        ensures
            r@ == trim(self@.requested[self@.idx as int]),
    {
        let chars = chars_of(self.requested[self.idx].as_str());
        string_of(trimmed(chars.as_slice()))
    }

    fn advance(&mut self)
        requires
            old(self)@.idx <= old(self)@.requested.len(),
        ensures
            final(self)@ == next_file(old(self)@),
            job_ok(final(self)@),
    {
        loop
            invariant
                next_file(self@) == next_file(old(self)@),
                self@.idx <= self@.requested.len(),
            decreases self@.requested.len() - self@.idx,
        {
            assert(self@.requested.len() == self.requested@.len());
            if self.idx >= self.requested.len() {
                if self.total_bytes > self.max_total_bytes {
                    let mut msg = String::new();
                    msg.append("total attachment size is too large (");
                    let n = render_u64(self.total_bytes);
                    msg.append(n.as_str());
                    msg.append(" > ");
                    let m = render_u64(self.max_total_bytes);
                    msg.append(m.as_str());
                    msg.append(" bytes)");
                    assert(msg@ =~= "total attachment size is too large ("@ + decimal(
                        self.total_bytes as nat,
                    ) + " > "@ + decimal(self.max_total_bytes as nat) + " bytes)"@);
                    self.warn(attachment_warning(msg.as_str()));
                    self.attachments = Vec::new();
                    assert(uploads(self.attachments@) =~= Seq::<Upload>::empty());
                }
                self.phase = AttachmentPhase::Finished;
                return;
            }
            assert(self@.requested[self@.idx as int] == self.requested@[self.idx as int]@);
            let chars = chars_of(self.requested[self.idx].as_str());
            if trimmed(chars.as_slice()).len() > 0 {
                let path = requested_attachment_path(
                    self.requested[self.idx].as_str(),
                    self.base_dir.as_str(),
                );
                self.phase = AttachmentPhase::Resolve(path);
                return;
            }
            self.warn(attachment_warning("empty path"));
            self.idx += 1;
        }
    }

    /// Leaves the current file out; the reason is its name, then `reason`.
    fn skip(&mut self, reason: &str)
        requires
            old(self)@.idx < old(self)@.requested.len(),
        ensures
            final(self)@ == skip_file(
                old(self)@,
                trim(old(self)@.requested[old(self)@.idx as int]) + reason@,
            ),
            job_ok(final(self)@),
    {
        let mut msg = self.current_name();
        msg.append(reason);
        self.warn(attachment_warning(msg.as_str()));
        assert(self@.requested.len() == self.requested.len());
        self.idx += 1;
        self.advance();
    }

    /// Leaves the current file out; the reason is its name, then `reason` and the
    /// error in brackets.
    fn skip_error(&mut self, reason: &str, error: &str)
        requires
            old(self)@.idx < old(self)@.requested.len(),
        ensures
            final(self)@ == skip_file(
                old(self)@,
                trim(old(self)@.requested[old(self)@.idx as int]) + reason@ + error@ + ")"@,
            ),
            job_ok(final(self)@),
    {
        let mut tail = String::new();
        tail.append(reason);
        tail.append(error);
        tail.append(")");
        let ghost name = trim(self@.requested[self@.idx as int]);
        assert(name + tail@ =~= name + reason@ + error@ + ")"@);
        self.skip(tail.as_str());
    }

    /// Takes the answer to the current phase.
    pub fn answer(&mut self, answer: AttachmentAnswer)
        requires
            job_ok(old(self)@),
        ensures
            final(self)@ == job_after(old(self)@, answer),
            job_ok(final(self)@),
    {
        match answer {
            AttachmentAnswer::Roots(roots) => {
                if let AttachmentPhase::Roots = self.phase {
                    if roots.len() == 0 {
                        self.refuse(
                            attachment_warning(
                                "no valid attachment allowlist roots are configured",
                            ),
                        );
                    } else {
                        self.roots = roots;
                        self.advance();
                    }
                }
            },
            AttachmentAnswer::Resolved(r) => {
                if let AttachmentPhase::Resolve(_) = self.phase {
                    match r {
                        Ok(path) => {
                            if is_allowed(path.as_str(), self.roots.as_slice()) {
                                self.phase = AttachmentPhase::Inspect(path);
                            } else {
                                self.skip(" is outside the configured allowlist");
                            }
                        },
                        Err(e) => {
                            self.skip_error(" is missing or cannot be resolved (", e.as_str());
                        },
                    }
                }
            },
            AttachmentAnswer::Inspected(r) => {
                if let AttachmentPhase::Inspect(path) = &self.phase {
                    match r {
                        Ok((is_file, len)) => {
                            if !is_file {
                                self.skip(" is not a regular file");
                            } else if len > self.max_file_bytes {
                                let mut tail = String::new();
                                tail.append(" is too large (");
                                let n = render_u64(len);
                                tail.append(n.as_str());
                                tail.append(" > ");
                                let m = render_u64(self.max_file_bytes);
                                tail.append(m.as_str());
                                tail.append(" bytes)");
                                let ghost name = trim(self@.requested[self@.idx as int]);
                                assert(name + tail@ =~= name + " is too large ("@ + decimal(
                                    len as nat,
                                ) + " > "@ + decimal(self@.max_file_bytes as nat) + " bytes)"@);
                                self.skip(tail.as_str());
                            } else {
                                let path = path.clone();
                                self.phase = AttachmentPhase::Read(path);
                            }
                        },
                        Err(e) => {
                            self.skip_error(" cannot be inspected (", e.as_str());
                        },
                    }
                }
            },
            AttachmentAnswer::Contents(r) => {
                if let AttachmentPhase::Read(_) = self.phase {
                    match r {
                        Ok(bytes) => {
                            self.total_bytes = self.total_bytes.saturating_add(bytes.len() as u64);
                            let path = requested_attachment_path(
                                self.requested[self.idx].as_str(),
                                self.base_dir.as_str(),
                            );
                            assert(self@.requested.len() == self.requested.len());
                            let filename = sanitize_attachment_filename(
                                path.as_str(),
                                self.idx + 1,
                            );
                            let upload = OutboundAttachment { filename, bytes };
                            let ghost before = self.attachments@;
                            let ghost u = upload@;
                            self.attachments.push(upload);
                            assert(uploads(self.attachments@) =~= uploads(before).push(u));
                            self.idx += 1;
                            self.advance();
                        },
                        Err(e) => {
                            self.skip_error(" cannot be read (", e.as_str());
                        },
                    }
                }
            },
        }
    }
}

/// A file is read only below an allowed directory, and only after it was found to
/// be a regular file that is not too large.
pub proof fn law_only_allowed_files_are_read(j: JobState, answer: AttachmentAnswer)
    requires
        job_ok(j),
        !(j.phase is Read),
        job_after(j, answer).phase is Read,
    ensures
        answer is Inspected,
        answer->Inspected_0 is Ok,
        ({
            let (is_file, len) = answer->Inspected_0->Ok_0;
            is_file && len <= j.max_file_bytes
        }),
        allowed(job_after(j, answer).phase->Read_0, j.roots),
{
    assert forall|k: JobState| !(#[trigger] next_file(k).phase is Read) by {
        lemma_next_file_phase(k);
    }
}

proof fn lemma_next_file_phase(j: JobState)
    ensures
        next_file(j).phase is Resolve || next_file(j).phase is Finished,
    decreases j.requested.len() - j.idx,
{
    if j.idx < j.requested.len() && trim(j.requested[j.idx as int]).len() == 0 {
        lemma_next_file_phase(
            JobState { idx: j.idx + 1, warnings: j.warnings.push(skipped("empty path"@)), ..j },
        );
    }
}

/// The bytes of all uploads.
pub open spec fn upload_bytes(files: Seq<Upload>) -> nat
    decreases files.len(),
{
    if files.len() == 0 {
        0
    } else {
        upload_bytes(files.drop_last()) + files.last().bytes.len()
    }
}

/// What holds of the work at every step: no more uploads than files asked for, and
/// at its end no more bytes than the limit allows.
pub open spec fn job_bounded(j: JobState) -> bool {
    &&& j.idx <= j.requested.len()
    &&& j.files.len() <= j.idx
    &&& !(j.phase is Finished) ==> j.total_bytes == sum_bytes(0, upload_bytes(j.files))
    &&& j.phase is Finished ==> j.files.len() == 0 || (j.total_bytes == sum_bytes(
        0,
        upload_bytes(j.files),
    ) && j.total_bytes <= j.max_total_bytes)
}

proof fn lemma_next_file(j: JobState)
    requires
        j.idx <= j.requested.len(),
        j.files.len() <= j.idx,
        j.total_bytes == sum_bytes(0, upload_bytes(j.files)),
    ensures
        job_bounded(next_file(j)),
        next_file(j).requested == j.requested,
        next_file(j).phase is Finished || next_file(j).idx >= j.idx,
    decreases j.requested.len() - j.idx,
{
    if j.idx < j.requested.len() && trim(j.requested[j.idx as int]).len() == 0 {
        lemma_next_file(
            JobState { idx: j.idx + 1, warnings: j.warnings.push(skipped("empty path"@)), ..j },
        );
    }
}

/// The work that any sequence of answers leads to.
pub open spec fn job_run(j: JobState, answers: Seq<AttachmentAnswer>) -> JobState
    decreases answers.len(),
{
    if answers.len() == 0 {
        j
    } else {
        job_after(job_run(j, answers.drop_last()), answers.last())
    }
}

/// Whatever the file system answers, no more files are uploaded than the
/// configured number, no more bytes than the configured total, and nothing that
/// was not resolved below an allowed directory.
pub proof fn law_uploads_within_limits(
    requested: Seq<Seq<char>>,
    config: AgentAttachmentsConfig,
    base_dir: Seq<char>,
    answers: Seq<AttachmentAnswer>,
)
    ensures
        ({
            let j = job_run(job_start(requested, config, base_dir), answers);
            &&& job_ok(j)
            &&& job_bounded(j)
            &&& j.files.len() > 0 ==> config.enabled && j.files.len() <= config.max_files
            &&& j.phase is Finished && j.files.len() > 0 ==> sum_bytes(
                0,
                upload_bytes(j.files),
            ) <= config.max_total_bytes
        }),
    decreases answers.len(),
{
    let start = job_start(requested, config, base_dir);
    if answers.len() > 0 {
        law_uploads_within_limits(requested, config, base_dir, answers.drop_last());
        let j = job_run(start, answers.drop_last());
        lemma_steps(j, answers.last());
        lemma_run_keeps(start, answers);
        lemma_run_keeps(start, answers.drop_last());
    }
}

proof fn lemma_run_keeps(j: JobState, answers: Seq<AttachmentAnswer>)
    ensures
        job_run(j, answers).requested == j.requested,
        job_run(j, answers).max_total_bytes == j.max_total_bytes,
        j.phase is Finished ==> job_run(j, answers) == j,
    decreases answers.len(),
{
    if answers.len() > 0 {
        lemma_run_keeps(j, answers.drop_last());
        lemma_keeps(job_run(j, answers.drop_last()), answers.last());
    }
}

proof fn lemma_keeps(j: JobState, answer: AttachmentAnswer)
    ensures
        job_after(j, answer).requested == j.requested,
        job_after(j, answer).max_total_bytes == j.max_total_bytes,
{
    assert forall|k: JobState| #[trigger] next_file(k).requested == k.requested && next_file(
        k,
    ).max_total_bytes == k.max_total_bytes by {
        lemma_next_file_keeps(k);
    }
}

proof fn lemma_next_file_keeps(j: JobState)
    ensures
        next_file(j).requested == j.requested,
        next_file(j).max_total_bytes == j.max_total_bytes,
        j.idx <= j.requested.len() ==> job_ok(next_file(j)),
        j.idx <= j.requested.len() ==> next_file(j).idx >= j.idx,
    decreases j.requested.len() - j.idx,
{
    if j.idx < j.requested.len() && trim(j.requested[j.idx as int]).len() == 0 {
        lemma_next_file_keeps(
            JobState { idx: j.idx + 1, warnings: j.warnings.push(skipped("empty path"@)), ..j },
        );
    }
}

proof fn lemma_steps(j: JobState, answer: AttachmentAnswer)
    requires
        job_ok(j),
        job_bounded(j),
    ensures
        job_ok(job_after(j, answer)),
        job_bounded(job_after(j, answer)),
{
    assert forall|k: JobState|
        #![trigger next_file(k)]
        k.idx <= k.requested.len() && k.files.len() <= k.idx && k.total_bytes == sum_bytes(
            0,
            upload_bytes(k.files),
        ) implies job_bounded(next_file(k)) && job_ok(next_file(k)) by {
        lemma_next_file(k);
        lemma_next_file_keeps(k);
    }
    if let AttachmentAnswer::Contents(Ok(bytes)) = answer {
        let u = Upload {
            filename: upload_name(
                requested_path(j.requested[j.idx as int], j.base_dir),
                j.idx + 1,
            ),
            bytes: bytes@,
        };
        assert(j.files.push(u).drop_last() =~= j.files);
    }
}

/// An upload's name holds only letters, digits, dots, underscores and hyphens, is
/// not empty and does not name a directory.
pub proof fn law_upload_names_are_safe(path: Seq<char>, idx: nat)
    ensures
        upload_name(path, idx).len() > 0,
        upload_name(path, idx) != "."@,
        upload_name(path, idx) != ".."@,
        forall|i: int|
            0 <= i < upload_name(path, idx).len() ==> filename_char(
                #[trigger] upload_name(path, idx)[i],
            ),
{
    reveal_strlit("attachment-");
    reveal_strlit(".");
    reveal_strlit("..");
    lemma_decimal_digits(idx);
}

proof fn lemma_decimal_digits(n: nat)
    ensures
        decimal(n).len() > 0,
        forall|i: int| 0 <= i < decimal(n).len() ==> crate::text::is_digit(#[trigger] decimal(n)[i]),
    decreases n,
{
    if n >= 10 {
        lemma_decimal_digits(n / 10);
    }
}

/// Requested files are refused as a whole, with one warning, where uploads are off or too
/// many are asked for; otherwise the work begins, with nothing uploaded yet. Without a
/// request there is nothing to do.
pub proof fn law_uploads_begin(
    requested: Seq<Seq<char>>,
    config: AgentAttachmentsConfig,
    base_dir: Seq<char>,
)
    ensures
        ({
            let j = job_start(requested, config, base_dir);
            &&& j.files.len() == 0 && j.requested == requested && j.base_dir == base_dir
            &&& j.max_file_bytes == config.max_file_bytes && j.max_total_bytes
                == config.max_total_bytes
            &&& requested.len() == 0 ==> j.phase is Finished && j.warnings.len() == 0
            &&& requested.len() > 0 && !config.enabled ==> j.phase is Finished && j.warnings
                == seq![
                "⚠️ attachment upload is disabled for this bot; "@ + decimal(requested.len())
                    + " requested file(s) were not sent."@,
            ]
            &&& requested.len() > config.max_files && requested.len() > 0 && config.enabled
                ==> j.phase is Finished && j.warnings == seq![
                "⚠️ attachment skipped: "@ + ("too many files requested ("@ + decimal(
                    requested.len(),
                ) + " > "@ + decimal(config.max_files as nat) + ")"@),
            ]
            &&& 0 < requested.len() <= config.max_files && config.enabled ==> j.phase is Roots
                && j.warnings.len() == 0 && j.idx == 0 && j.total_bytes == 0
        }),
{
}

/// Files are taken in the order in which they were asked for. One without a path is left
/// out with a warning; behind the last one all uploads stand, unless together they are too
/// large: then none does, and a warning says so.
pub proof fn law_files_in_turn(j: JobState)
    ensures
        ({
            let n = next_file(j);
            &&& j.idx < j.requested.len() && trim(j.requested[j.idx as int]).len() > 0 ==> n == (
            JobState {
                phase: Phase::Resolve(path_join(j.base_dir, trim(j.requested[j.idx as int]))),
                ..j
            })
            &&& j.idx < j.requested.len() && trim(j.requested[j.idx as int]).len() == 0 ==> n
                == next_file(
                JobState {
                    idx: j.idx + 1,
                    warnings: j.warnings.push("⚠️ attachment skipped: "@ + "empty path"@),
                    ..j
                },
            )
            &&& j.idx >= j.requested.len() && j.total_bytes <= j.max_total_bytes ==> n == (
            JobState { phase: Phase::Finished, ..j })
            &&& j.idx >= j.requested.len() && j.total_bytes > j.max_total_bytes ==> n == (JobState {
                phase: Phase::Finished,
                files: Seq::empty(),
                warnings: j.warnings.push(
                    "⚠️ attachment skipped: "@ + ("total attachment size is too large ("@ + decimal(
                        j.total_bytes as nat,
                    ) + " > "@ + decimal(j.max_total_bytes as nat) + " bytes)"@),
                ),
                ..j
            })
        }),
{
}

/// The work after the current file was left out for the given reason.
pub open spec fn left_out(j: JobState, reason: Seq<char>) -> JobState {
    next_file(
        JobState {
            idx: j.idx + 1,
            warnings: j.warnings.push(
                "⚠️ attachment skipped: "@ + (trim(j.requested[j.idx as int]) + reason),
            ),
            ..j
        },
    )
}

/// A file that resolves to a place below an allowed directory, is a regular file, is not
/// too large and can be read is uploaded with all its bytes; every other one is left out,
/// and a warning names it and says why.
pub proof fn law_allowed_files_are_uploaded(j: JobState, path: String, bytes: Vec<u8>, e: String)
    requires
        j.idx < j.requested.len(),
    ensures
        j.phase is Resolve ==> {
            let below = exists|i: int| 0 <= i < j.roots.len() && is_under(path@, #[trigger] j.roots[i]);
            let found = job_after(j, AttachmentAnswer::Resolved(Ok(path)));
            let lost = job_after(j, AttachmentAnswer::Resolved(Err(e)));
            &&& below ==> found == (JobState { phase: Phase::Inspect(path@), ..j })
            &&& !below ==> found == left_out(j, " is outside the configured allowlist"@)
            &&& lost == left_out(j, " is missing or cannot be resolved ("@ + e@ + ")"@)
        },
        j.phase is Inspect ==> {
            let len = j.max_file_bytes;
            &&& job_after(j, AttachmentAnswer::Inspected(Ok((true, len)))) == (JobState {
                phase: Phase::Read(j.phase->Inspect_0),
                ..j
            })
            &&& job_after(j, AttachmentAnswer::Inspected(Ok((false, len)))) == left_out(
                j,
                " is not a regular file"@,
            )
            &&& job_after(j, AttachmentAnswer::Inspected(Err(e))) == left_out(
                j,
                " cannot be inspected ("@ + e@ + ")"@,
            )
        },
        j.phase is Read ==> {
            let sum = j.total_bytes + bytes@.len();
            let name = upload_name(
                path_join(j.base_dir, trim(j.requested[j.idx as int])),
                j.idx + 1,
            );
            &&& job_after(j, AttachmentAnswer::Contents(Ok(bytes))) == next_file(
                JobState {
                    idx: j.idx + 1,
                    total_bytes: if sum <= u64::MAX {
                        sum as u64
                    } else {
                        u64::MAX
                    },
                    files: j.files.push(Upload { filename: name, bytes: bytes@ }),
                    ..j
                },
            )
            &&& job_after(j, AttachmentAnswer::Contents(Err(e))) == left_out(
                j,
                " cannot be read ("@ + e@ + ")"@,
            )
        },
{
    let name = trim(j.requested[j.idx as int]);
    let s = "⚠️ attachment skipped: "@;
    let r1 = " is missing or cannot be resolved ("@;
    let r2 = " cannot be inspected ("@;
    let r3 = " cannot be read ("@;
    assert(name + r1 + e@ + ")"@ =~= name + (r1 + e@ + ")"@));
    assert(name + r2 + e@ + ")"@ =~= name + (r2 + e@ + ")"@));
    assert(name + r3 + e@ + ")"@ =~= name + (r3 + e@ + ")"@));
}

/// The size decides exactly: a regular file is read where it is no larger than the limit,
/// whatever its size below that, and left out where it is larger.
pub proof fn law_file_size_limit(j: JobState, len: u64)
    requires
        j.idx < j.requested.len(),
        j.phase is Inspect,
    ensures
        len <= j.max_file_bytes ==> job_after(j, AttachmentAnswer::Inspected(Ok((true, len)))) == (
        JobState { phase: Phase::Read(j.phase->Inspect_0), ..j }),
        len > j.max_file_bytes ==> job_after(j, AttachmentAnswer::Inspected(Ok((true, len))))
            == left_out(
            j,
            " is too large ("@ + decimal(len as nat) + " > "@ + decimal(j.max_file_bytes as nat)
                + " bytes)"@,
        ),
{
    let name = trim(j.requested[j.idx as int]);
    let a = " is too large ("@;
    let b = decimal(len as nat);
    let c = decimal(j.max_file_bytes as nat);
    assert(name + a + b + " > "@ + c + " bytes)"@ =~= name + (a + b + " > "@ + c + " bytes)"@));
}

/// The work goes on once the allowed directories are known, and is refused where there is
/// none.
pub proof fn law_allowed_directories_are_needed(j: JobState, roots: Vec<String>)
    requires
        j.phase is Roots,
    ensures
        roots@.len() > 0 ==> job_after(j, AttachmentAnswer::Roots(roots)) == next_file(
            JobState { roots: texts(roots@), ..j },
        ),
        roots@.len() == 0 ==> job_after(j, AttachmentAnswer::Roots(roots)).phase is Finished
            && job_after(j, AttachmentAnswer::Roots(roots)).files == j.files && job_after(
            j,
            AttachmentAnswer::Roots(roots),
        ).warnings == seq![
            "⚠️ attachment skipped: "@ + "no valid attachment allowlist roots are configured"@,
        ],
{
}

/// A file keeps its name, up to 128 characters of it, but for characters that are no
/// letters, digits, dots, underscores or hyphens, which become underscores. Only a path
/// without a name gets a number instead.
pub proof fn law_upload_keeps_its_name(path: Seq<char>, idx: nat, i: int)
    requires
        file_name(path) is Some ==> file_name(path)->0 != "."@ && file_name(path)->0 != ".."@,
        decimal(idx).len() <= 100,
    ensures
        file_name(path) is None ==> upload_name(path, idx) == "attachment-"@ + decimal(idx),
        file_name(path) is Some && trim(file_name(path)->0).len() == 0 ==> upload_name(path, idx)
            == "attachment-"@ + decimal(idx),
        file_name(path) is Some && trim(file_name(path)->0).len() > 0 ==> {
            let name = file_name(path)->0;
            let out = upload_name(path, idx);
            &&& out.len() == (if name.len() > 128 {
                128
            } else {
                name.len()
            })
            &&& 0 <= i < out.len() ==> out[i] == (if is_alnum(name[i]) || name[i] == '.' || name[i]
                == '_' || name[i] == '-' {
                name[i]
            } else {
                '_'
            })
        },
{
    reveal_strlit(".");
    reveal_strlit("..");
    reveal_strlit("attachment-");
    if file_name(path) is Some {
        let name = file_name(path)->0;
        let m = masked_name(name);
        if m == "."@ {
            assert(m[0] == '.');
            assert(name =~= "."@);
        }
        if m == ".."@ {
            assert(m.len() == 2 && name.len() == 2);
            assert(m[0] == '.' && m[1] == '.');
            assert(name[0] == '.' && name[1] == '.');
            assert(name =~= ".."@);
        }
        if name.len() == 0 {
            assert(trim(name).len() == 0);
        }
    }
    lemma_plain_fallback(idx);
}

proof fn lemma_plain_fallback(idx: nat)
    ensures
        decimal(idx).len() <= 100 ==> masked_name(fallback_name(idx)) == fallback_name(idx),
{
    reveal_strlit("attachment-");
    lemma_decimal_digits(idx);
    let f = fallback_name(idx);
    let kept = if f.len() > 128 {
        f.take(128)
    } else {
        f
    };
    assert forall|i: int| 0 <= i < kept.len() implies filename_char(#[trigger] kept[i]) by {
        if i >= 11 {
            assert(f[i] == decimal(idx)[i - 11]);
        }
    }
    assert(masked_name(f) =~= kept);
}

} // verus!
