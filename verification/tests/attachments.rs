//! Files that an agent asks to upload.

use openab::adapter::attachments::{
    prepare_output_attachments, sanitize_attachment_filename, AttachmentAnswer, AttachmentPhase,
    OutboundAttachment,
};
use openab::config::AgentAttachmentsConfig;

/// What stands behind a path.
enum Node {
    File(Vec<u8>),
    Locked,
    Dir,
    Link(&'static str),
}

struct Disk {
    nodes: Vec<(&'static str, Node)>,
}

impl Disk {
    fn canonical(&self, path: &str) -> Result<String, String> {
        match self.nodes.iter().find(|(p, _)| *p == path) {
            Some((_, Node::Link(to))) => Ok(to.to_string()),
            Some(_) => Ok(path.to_string()),
            None => Err("No such file or directory".to_string()),
        }
    }

    fn node(&self, path: &str) -> &Node {
        &self.nodes.iter().find(|(p, _)| *p == path).unwrap().1
    }
}

fn attachment_config() -> AgentAttachmentsConfig {
    AgentAttachmentsConfig {
        enabled: true,
        allowed_paths: vec!["/tmp/ws".to_string()],
        max_files: 5,
        max_file_bytes: 64,
        max_total_bytes: 128,
    }
}

fn disk(mut nodes: Vec<(&'static str, Node)>) -> Disk {
    nodes.push(("/tmp/ws", Node::Dir));
    Disk { nodes }
}

/// Runs the work to its end on a disk in memory.
fn prepare(
    paths: &[&str],
    config: &AgentAttachmentsConfig,
    base: &str,
    disk: &Disk,
) -> (Vec<OutboundAttachment>, Vec<String>) {
    let requested: Vec<String> = paths.iter().map(|p| p.to_string()).collect();
    let mut job = prepare_output_attachments(&requested, config, base);
    loop {
        let answer = match job.phase() {
            AttachmentPhase::Finished => return job.into_result(),
            AttachmentPhase::Roots => AttachmentAnswer::Roots(
                config
                    .allowed_paths
                    .iter()
                    .filter_map(|p| disk.canonical(p).ok())
                    .collect(),
            ),
            AttachmentPhase::Resolve(path) => AttachmentAnswer::Resolved(disk.canonical(path)),
            AttachmentPhase::Inspect(path) => AttachmentAnswer::Inspected(match disk.node(path) {
                Node::File(bytes) => Ok((true, bytes.len() as u64)),
                Node::Locked => Ok((true, 1)),
                _ => Ok((false, 0)),
            }),
            AttachmentPhase::Read(path) => AttachmentAnswer::Contents(match disk.node(path) {
                Node::File(bytes) => Ok(bytes.clone()),
                _ => Err("Permission denied".to_string()),
            }),
        };
        job.answer(answer);
    }
}

#[test]
fn prepare_attachment_resolves_relative_from_cwd() {
    let disk = disk(vec![("/tmp/ws/project/hello.log", Node::File(b"hello".to_vec()))]);

    let (attachments, warnings) =
        prepare(&["hello.log"], &attachment_config(), "/tmp/ws/project", &disk);

    assert!(warnings.is_empty(), "{warnings:?}");
    assert_eq!(attachments.len(), 1);
    assert_eq!(attachments[0].filename, "hello.log");
    assert_eq!(attachments[0].bytes, b"hello");
}

#[test]
fn prepare_attachment_accepts_absolute_allowlisted_path() {
    let disk = disk(vec![("/tmp/ws/result.txt", Node::File(b"ok".to_vec()))]);

    let (attachments, warnings) =
        prepare(&["/tmp/ws/result.txt"], &attachment_config(), "/tmp/ws", &disk);

    assert!(warnings.is_empty(), "{warnings:?}");
    assert_eq!(attachments.len(), 1);
    assert_eq!(attachments[0].filename, "result.txt");
}

#[test]
fn prepare_attachment_rejects_missing_file() {
    let (attachments, warnings) =
        prepare(&["missing.log"], &attachment_config(), "/tmp/ws", &disk(vec![]));

    assert!(attachments.is_empty());
    assert!(warnings.iter().any(|w| w.contains("missing.log")));
    assert_eq!(
        warnings,
        vec!["⚠️ attachment skipped: missing.log is missing or cannot be resolved (No such file or directory)"]
    );
}

#[test]
fn prepare_attachment_rejects_directory() {
    let disk = disk(vec![("/tmp/ws/dir", Node::Dir)]);
    let (attachments, warnings) = prepare(&["dir"], &attachment_config(), "/tmp/ws", &disk);

    assert!(attachments.is_empty());
    assert!(warnings.iter().any(|w| w.contains("not a regular file")));
}

#[test]
fn prepare_attachment_rejects_unreadable_file() {
    let disk = disk(vec![("/tmp/ws/locked.log", Node::Locked)]);
    let (attachments, warnings) = prepare(&["locked.log"], &attachment_config(), "/tmp/ws", &disk);

    assert!(attachments.is_empty());
    assert!(warnings.iter().any(|w| w.contains("cannot be read")));
}

#[test]
fn prepare_attachment_rejects_outside_allowlist() {
    let disk = disk(vec![("/tmp/other/outside.log", Node::File(b"no".to_vec()))]);
    let (attachments, warnings) =
        prepare(&["/tmp/other/outside.log"], &attachment_config(), "/tmp/ws", &disk);

    assert!(attachments.is_empty());
    assert!(warnings
        .iter()
        .any(|w| w.contains("outside the configured allowlist")));
}

#[test]
fn prepare_attachment_rejects_symlink_escape() {
    let disk = disk(vec![
        ("/tmp/ws/link.log", Node::Link("/tmp/other/secret.log")),
        ("/tmp/other/secret.log", Node::File(b"no".to_vec())),
    ]);
    let (attachments, warnings) = prepare(&["link.log"], &attachment_config(), "/tmp/ws", &disk);

    assert!(attachments.is_empty());
    assert!(warnings
        .iter()
        .any(|w| w.contains("outside the configured allowlist")));
}

#[test]
fn prepare_attachment_rejects_too_many_files() {
    let mut config = attachment_config();
    config.max_files = 1;

    let (attachments, warnings) =
        prepare(&["a.log", "b.log"], &config, "/tmp/ws", &disk(vec![]));

    assert!(attachments.is_empty());
    assert!(warnings.iter().any(|w| w.contains("too many files")));
    assert_eq!(
        warnings,
        vec!["⚠️ attachment skipped: too many files requested (2 > 1)"]
    );
}

#[test]
fn prepare_attachment_rejects_per_file_oversize() {
    let disk = disk(vec![("/tmp/ws/big.log", Node::File(vec![b'x'; 65]))]);
    let (attachments, warnings) = prepare(&["big.log"], &attachment_config(), "/tmp/ws", &disk);

    assert!(attachments.is_empty());
    assert!(warnings.iter().any(|w| w.contains("too large")));
    assert_eq!(
        warnings,
        vec!["⚠️ attachment skipped: big.log is too large (65 > 64 bytes)"]
    );
}

#[test]
fn prepare_attachment_rejects_total_oversize() {
    let disk = disk(vec![
        ("/tmp/ws/a.log", Node::File(vec![b'a'; 64])),
        ("/tmp/ws/b.log", Node::File(vec![b'b'; 64])),
        ("/tmp/ws/c.log", Node::File(vec![b'c'; 1])),
    ]);
    let (attachments, warnings) =
        prepare(&["a.log", "b.log", "c.log"], &attachment_config(), "/tmp/ws", &disk);

    assert!(attachments.is_empty());
    assert!(warnings.iter().any(|w| w.contains("total attachment size")));
}

#[test]
fn prepare_attachment_rejects_when_disabled() {
    let disk = disk(vec![("/tmp/ws/a.log", Node::File(b"a".to_vec()))]);
    let mut config = attachment_config();
    config.enabled = false;

    let (attachments, warnings) = prepare(&["a.log"], &config, "/tmp/ws", &disk);

    assert!(attachments.is_empty());
    assert!(warnings.iter().any(|w| w.contains("disabled")));
}

#[test]
fn nothing_requested_asks_for_nothing() {
    let (attachments, warnings) = prepare(&[], &attachment_config(), "/tmp/ws", &disk(vec![]));
    assert!(attachments.is_empty());
    assert!(warnings.is_empty());
}

#[test]
fn empty_paths_and_missing_roots_are_reported() {
    let (_, warnings) = prepare(&["  ", ""], &attachment_config(), "/tmp/ws", &disk(vec![]));
    assert_eq!(
        warnings,
        vec![
            "⚠️ attachment skipped: empty path",
            "⚠️ attachment skipped: empty path"
        ]
    );
    let nowhere = Disk { nodes: vec![] };
    let (_, warnings) = prepare(&["a.log"], &attachment_config(), "/tmp/ws", &nowhere);
    assert_eq!(
        warnings,
        vec!["⚠️ attachment skipped: no valid attachment allowlist roots are configured"]
    );
}

#[test]
fn good_files_are_kept_beside_bad_ones() {
    let disk = disk(vec![("/tmp/ws/ok.txt", Node::File(b"ok".to_vec()))]);
    let (attachments, warnings) =
        prepare(&["gone.txt", " ok.txt "], &attachment_config(), "/tmp/ws", &disk);
    assert_eq!(attachments.len(), 1);
    assert_eq!(attachments[0].filename, "ok.txt");
    assert_eq!(warnings.len(), 1);
}

#[test]
fn upload_names_are_masked() {
    assert_eq!(sanitize_attachment_filename("/a/my file (1).txt", 1), "my_file__1_.txt");
    assert_eq!(sanitize_attachment_filename("/a/报告.pdf", 1), "__.pdf");
    assert_eq!(sanitize_attachment_filename("/", 3), "attachment-3");
    assert_eq!(sanitize_attachment_filename("/a/..", 12), "attachment-12");
    assert_eq!(sanitize_attachment_filename(&"x".repeat(200), 1), "x".repeat(128));
}

#[test]
fn unexpected_answers_change_nothing() {
    let mut job = prepare_output_attachments(&["a".to_string()], &attachment_config(), "/tmp/ws");
    job.answer(AttachmentAnswer::Contents(Ok(vec![1])));
    assert!(matches!(job.phase(), AttachmentPhase::Roots));
}
