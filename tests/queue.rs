use yushi_core::checksum::digest_matches;
use yushi_core::progress::{eta, ProgressTracker, SpeedWindow};
use yushi_core::state::journal_path;
use yushi_core::{
    ChecksumType, DownloadError, DownloadQueue, DownloadTask, Priority, ProgressEvent, QueueEvent,
    TaskStatus,
};

fn status_of(q: &DownloadQueue, id: &str) -> TaskStatus {
    q.get_task(id).unwrap().status
}

fn downloading(q: &DownloadQueue) -> Vec<String> {
    q.get_all_tasks()
        .into_iter()
        .filter(|t| t.status == TaskStatus::Downloading)
        .map(|t| t.id)
        .collect()
}

fn started(events: &[QueueEvent]) -> Vec<String> {
    events
        .iter()
        .filter_map(|e| match e {
            QueueEvent::TaskStarted { task_id } => Some(task_id.clone()),
            _ => None,
        })
        .collect()
}

#[test]
fn ids_are_uuids_and_distinct() {
    let mut q = DownloadQueue::new(0);
    let (a, ev) = q.add_task("http://h/a".to_string(), "/tmp/a".to_string(), 1).unwrap();
    let (b, _) = q.add_task("http://h/b".to_string(), "/tmp/b".to_string(), 1).unwrap();
    assert_eq!(a.len(), 36);
    assert_eq!(a.matches('-').count(), 4);
    assert_ne!(a, b);
    assert!(matches!(&ev[0], QueueEvent::TaskAdded { task_id } if *task_id == a));
    assert_eq!(status_of(&q, &a), TaskStatus::Pending);
}

#[test]
fn admission_is_capped_and_fifo() {
    let mut q = DownloadQueue::new(2);
    let mut ids = Vec::new();
    let mut all_started = Vec::new();
    for k in 0..5 {
        let (id, ev) = q
            .add_task(format!("http://h/{k}"), format!("/tmp/{k}"), 100 + k as u64)
            .unwrap();
        all_started.extend(started(&ev));
        ids.push(id);
        assert!(downloading(&q).len() <= 2);
    }
    assert_eq!(all_started, vec![ids[0].clone(), ids[1].clone()]);
    assert_eq!(q.active_count(), 2);

    let ev = q.engine_finished(&ids[0]).unwrap();
    assert!(matches!(&ev[0], QueueEvent::TaskCompleted { .. }));
    assert_eq!(started(&ev), vec![ids[2].clone()]);
    let ev = q.engine_failed(&ids[1], "network".to_string()).unwrap();
    assert!(matches!(&ev[0], QueueEvent::TaskFailed { error, .. } if error == "network"));
    assert_eq!(started(&ev), vec![ids[3].clone()]);
    assert_eq!(q.get_task(&ids[1]).unwrap().error, Some("network".to_string()));
    assert!(downloading(&q).len() <= 2);
}

#[test]
fn high_priority_takes_the_next_slot() {
    let mut q = DownloadQueue::new(2);
    let mut normal = Vec::new();
    for k in 0..4 {
        let (id, _) = q
            .add_task_with_options(format!("http://h/{k}"), format!("/tmp/{k}"), Priority::Normal, None, 10 + k)
            .unwrap();
        normal.push(id);
    }
    let (high, ev) = q
        .add_task_with_options("http://h/high".to_string(), "/tmp/high".to_string(), Priority::High, None, 20)
        .unwrap();
    assert!(started(&ev).is_empty());
    let ev = q.engine_finished(&normal[0]).unwrap();
    assert_eq!(started(&ev), vec![high.clone()]);
    let ev = q.engine_finished(&normal[1]).unwrap();
    assert_eq!(started(&ev), vec![normal[2].clone()]);
}

#[test]
fn illegal_transitions_are_refused() {
    let mut q = DownloadQueue::new(0);
    let (id, _) = q.add_task("u".to_string(), "d".to_string(), 0).unwrap();
    assert_eq!(
        q.pause_task(&id),
        Err(DownloadError::InvalidStateTransition { from: TaskStatus::Pending, to: TaskStatus::Paused })
    );
    assert_eq!(
        q.resume_task(&id),
        Err(DownloadError::InvalidStateTransition { from: TaskStatus::Pending, to: TaskStatus::Pending })
    );
    assert!(matches!(q.remove_task(&id), Err(DownloadError::InvalidStateTransition { .. })));
    assert!(matches!(q.engine_finished(&id), Err(DownloadError::InvalidStateTransition { .. })));
    assert_eq!(q.pause_task("missing"), Err(DownloadError::NotFound));
    assert!(q.cancel_task(&id).is_ok());
    assert_eq!(
        q.cancel_task(&id),
        Err(DownloadError::InvalidStateTransition { from: TaskStatus::Cancelled, to: TaskStatus::Cancelled })
    );
    assert!(TaskStatus::Paused.can_transition_to(TaskStatus::Pending));
    assert!(!TaskStatus::Completed.can_transition_to(TaskStatus::Pending));
    assert!(!TaskStatus::Pending.can_transition_to(TaskStatus::Completed));
    assert!(TaskStatus::Cancelled.is_terminal());
}

#[test]
fn pause_and_resume() {
    let mut q = DownloadQueue::new(1);
    let (a, _) = q.add_task("u1".to_string(), "d1".to_string(), 0).unwrap();
    let (b, _) = q.add_task("u2".to_string(), "d2".to_string(), 1).unwrap();
    assert_eq!(status_of(&q, &a), TaskStatus::Downloading);
    let ev = q.pause_task(&a).unwrap();
    assert!(matches!(&ev[..], [QueueEvent::TaskPaused { task_id }] if *task_id == a));
    assert_eq!(status_of(&q, &a), TaskStatus::Paused);
    assert_eq!(status_of(&q, &b), TaskStatus::Pending);
    let ev = q.resume_task(&a).unwrap();
    assert!(matches!(&ev[0], QueueEvent::TaskResumed { .. }));
    assert_eq!(started(&ev), vec![a.clone()]);
}

#[test]
fn add_cancel_remove_empties_the_table() {
    let mut q = DownloadQueue::new(3);
    let (id, _) = q.add_task("http://h/f".to_string(), "/tmp/f.bin".to_string(), 0).unwrap();
    let dest = q.get_task(&id).unwrap().dest;
    let ev = q.cancel_task(&id).unwrap();
    assert!(matches!(&ev[0], QueueEvent::TaskCancelled { task_id } if *task_id == id));
    assert_eq!(journal_path(&dest), "/tmp/f.bin.json");
    q.remove_task(&id).unwrap();
    assert!(q.get_all_tasks().is_empty());
    assert_eq!(q.get_task(&id).map(|t| t.id), None);
}

#[test]
fn empty_response_fails_without_verification() {
    let mut q = DownloadQueue::new(1);
    let sum = ChecksumType::parse("md5:D41D8CD98F00B204E9800998ECF8427E").unwrap();
    let (id, _) = q
        .add_task_with_options("u".to_string(), "d".to_string(), Priority::Normal, Some(sum), 0)
        .unwrap();
    let ev = q.engine_failed(&id, "origin error: the origin reports an empty file".to_string()).unwrap();
    assert!(!ev.iter().any(|e| matches!(e, QueueEvent::VerifyStarted { .. } | QueueEvent::VerifyCompleted { .. })));
    assert_eq!(status_of(&q, &id), TaskStatus::Failed);
}

#[test]
fn checksum_verification() {
    let empty_md5: Vec<u8> = vec![
        0xd4, 0x1d, 0x8c, 0xd9, 0x8f, 0x00, 0xb2, 0x04, 0xe9, 0x80, 0x09, 0x98, 0xec, 0xf8, 0x42, 0x7e,
    ];
    let mut q = DownloadQueue::new(2);
    let good = ChecksumType::parse("md5:d41d8cd98f00b204e9800998ecf8427e").unwrap();
    let bad = ChecksumType::parse("md5:D41D8CD98F00B204E9800998ECF8427F").unwrap();
    let (a, _) = q.add_task_with_options("u".into(), "a".into(), Priority::Normal, Some(good), 0).unwrap();
    let (b, _) = q.add_task_with_options("u".into(), "b".into(), Priority::Normal, Some(bad), 0).unwrap();
    let ev = q.engine_finished(&a).unwrap();
    assert!(matches!(&ev[..], [QueueEvent::VerifyStarted { .. }]));
    let ev = q.verification_done(&a, &empty_md5).unwrap();
    assert!(matches!(&ev[0], QueueEvent::VerifyCompleted { success: true, .. }));
    assert!(matches!(&ev[1], QueueEvent::TaskCompleted { .. }));
    assert_eq!(status_of(&q, &a), TaskStatus::Completed);
    let ev = q.verification_done(&b, &empty_md5).unwrap();
    assert!(matches!(&ev[0], QueueEvent::VerifyCompleted { success: false, .. }));
    assert!(matches!(&ev[1], QueueEvent::TaskFailed { .. }));
    assert_eq!(status_of(&q, &b), TaskStatus::Failed);
    assert!(q.get_task(&b).unwrap().error.is_some());
}

#[test]
fn checksum_forms() {
    assert!(matches!(ChecksumType::parse("sha1:da39a3ee5e6b4b0d3255bfef95601890afd80709"), Some(ChecksumType::Sha1(_))));
    assert!(matches!(
        ChecksumType::parse("sha256:e3b0c44298fc1c149afbf4c8996fb92427ae41e4649b934ca495991b7852b855"),
        Some(ChecksumType::Sha256(_))
    ));
    assert!(ChecksumType::parse("md5:d41d").is_none());
    assert!(ChecksumType::parse("crc:d41d8cd98f00b204e9800998ecf8427e").is_none());
    assert!(ChecksumType::parse("md5:z41d8cd98f00b204e9800998ecf8427e").is_none());
    let c = ChecksumType::parse("MD5:d41d8cd98f00b204e9800998ecf8427e");
    assert!(c.is_none());
    assert_eq!(ChecksumType::parse("md5:d41d8cd98f00b204e9800998ecf8427e").unwrap().digest_len(), 16);
    assert!(digest_matches(&vec!['0', 'a', 'F', 'f'], &vec![0x0a, 0xff]));
    assert!(!digest_matches(&vec!['0', 'a', 'F'], &vec![0x0a, 0xff]));
    assert!(!digest_matches(&vec!['0', 'b', 'F', 'f'], &vec![0x0a, 0xff]));
}

#[test]
fn clear_completed_keeps_the_rest() {
    let mut q = DownloadQueue::new(2);
    let (a, _) = q.add_task("u".into(), "a".into(), 0).unwrap();
    let (b, _) = q.add_task("u".into(), "b".into(), 0).unwrap();
    q.engine_finished(&a).unwrap();
    q.clear_completed();
    let ids: Vec<String> = q.get_all_tasks().into_iter().map(|t| t.id).collect();
    assert_eq!(ids, vec![b]);
}

#[test]
fn loading_a_snapshot_demotes_running_tasks() {
    let mk = |id: &str, status: TaskStatus| DownloadTask {
        id: id.to_string(),
        url: "u".to_string(),
        dest: "d".to_string(),
        status,
        total_size: 10,
        downloaded: 5,
        created_at: 0,
        error: None,
        priority: Priority::Normal,
        checksum: None,
    };
    let mut q = DownloadQueue::new(2);
    q.load_from_state(vec![mk("x", TaskStatus::Downloading), mk("y", TaskStatus::Completed), mk("x", TaskStatus::Pending)]);
    let all = q.get_all_tasks();
    assert_eq!(all.len(), 2);
    assert_eq!(all[0].status, TaskStatus::Paused);
    assert_eq!(all[1].status, TaskStatus::Completed);
    assert_eq!(q.active_count(), 0);
    assert_eq!(all[0].error, None);

    let mut broken = mk("z", TaskStatus::Failed);
    broken.downloaded = 50;
    let mut stale = mk("w", TaskStatus::Completed);
    stale.error = Some("old".to_string());
    q.load_from_state(vec![broken, stale]);
    let z = q.get_task("z").unwrap();
    assert!(z.error.is_some());
    assert_eq!(z.downloaded, 10);
    assert_eq!(q.get_task("w").unwrap().error, None);
}

#[test]
fn progress_is_recorded_and_published() {
    let mut q = DownloadQueue::new(1);
    let (id, _) = q.add_task("u".into(), "d".into(), 0).unwrap();
    q.set_total_size(&id, 1000).unwrap();
    let ev = q.record_progress(&id, 400, 100).unwrap();
    assert!(matches!(
        ev,
        QueueEvent::TaskProgress { downloaded: 400, total: 1000, speed: 100, eta: Some(6), .. }
    ));
    let ev = q.record_progress(&id, 5000, 0).unwrap();
    assert!(matches!(ev, QueueEvent::TaskProgress { downloaded: 1000, eta: None, .. }));
    assert_eq!(q.get_task(&id).unwrap().downloaded, 1000);
    q.set_total_size(&id, 600).unwrap();
    let t = q.get_task(&id).unwrap();
    assert_eq!((t.total_size, t.downloaded), (600, 600));
}

#[test]
fn completion_clears_nothing_it_should_keep() {
    let mut q = DownloadQueue::new(1);
    let (id, _) = q.add_task("u".into(), "d".into(), 0).unwrap();
    q.engine_failed(&id, "boom".to_string()).unwrap();
    q.resume_task(&id).unwrap();
    assert_eq!(q.get_task(&id).unwrap().error, None);
    assert_eq!(status_of(&q, &id), TaskStatus::Downloading);
    let ev = q.engine_finished(&id).unwrap();
    assert!(matches!(&ev[0], QueueEvent::TaskCompleted { task_id } if *task_id == id));
    let t = q.get_task(&id).unwrap();
    assert_eq!((t.status, t.error), (TaskStatus::Completed, None));
}

#[test]
fn first_submission_always_succeeds_with_a_clean_row() {
    let mut q = DownloadQueue::new(0);
    let (id, ev) = q.add_task("http://h/x".into(), "/tmp/x".into(), 7).unwrap();
    assert!(matches!(&ev[..], [QueueEvent::TaskAdded { task_id }] if *task_id == id));
    let t = q.get_task(&id).unwrap();
    assert_eq!((t.total_size, t.downloaded, t.error, t.created_at), (0, 0, None, 7));
    assert_eq!(t.status, TaskStatus::Pending);
}

#[test]
fn tracker_accumulates_chunks_and_follows_streams() {
    let mut t = ProgressTracker::new();
    assert_eq!(t.apply(&ProgressEvent::Initialized { total_size: Some(100) }), None);
    assert_eq!(t.total, 100);
    assert_eq!(t.apply(&ProgressEvent::ChunkUpdated { chunk_index: 0, delta: 30 }), Some(30));
    assert_eq!(t.apply(&ProgressEvent::ChunkUpdated { chunk_index: 1, delta: 20 }), Some(20));
    assert_eq!(t.downloaded, 50);
    assert_eq!(t.apply(&ProgressEvent::StreamUpdated { downloaded: 80 }), Some(30));
    assert_eq!(t.downloaded, 80);
    assert_eq!(t.apply(&ProgressEvent::Finished), None);
    let mut s = ProgressTracker::new();
    s.apply(&ProgressEvent::Initialized { total_size: None });
    assert_eq!(s.total, 0);
}

#[test]
fn speed_over_the_last_five_seconds() {
    let mut w = SpeedWindow::new();
    w.record(0, 5000);
    w.record(1000, 5000);
    assert_eq!(w.speed(1000), 2000);
    assert_eq!(w.speed(5500), 1000);
    w.record(7000, 500);
    assert_eq!(w.samples.len(), 1);
    assert_eq!(w.speed(7000), 100);
    assert_eq!(eta(1000, 400, 100), Some(6));
    assert_eq!(eta(0, 400, 100), None);
    assert_eq!(eta(1000, 400, 0), None);
}

#[test]
fn digests_of_empty_input() {
    let md5 = ChecksumType::parse("md5:d41d8cd98f00b204e9800998ecf8427e").unwrap();
    let sha1 = ChecksumType::parse("sha1:da39a3ee5e6b4b0d3255bfef95601890afd80709").unwrap();
    let sha256 =
        ChecksumType::parse("sha256:e3b0c44298fc1c149afbf4c8996fb92427ae41e4649b934ca495991b7852b855").unwrap();
    let empty: Vec<u8> = Vec::new();
    assert_eq!(md5.digest(&empty).len(), 16);
    assert_eq!(sha1.digest(&empty).len(), 20);
    assert_eq!(sha256.digest(&empty)[..2], [0xe3, 0xb0]);
    assert!(md5.verify(&empty));
    assert!(sha1.verify(&empty));
    assert!(sha256.verify(&empty));
    assert!(!md5.verify(&b"abc".to_vec()));
    let abc_md5 = ChecksumType::parse("md5:900150983cd24fb0d6963f7d28e17f72").unwrap();
    assert!(abc_md5.verify(&b"abc".to_vec()));
}
