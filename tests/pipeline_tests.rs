use media_catalog::catalog::{CatalogStore, VideoMetadata};
use media_catalog::media::{EntryKind, FileKind};
use media_catalog::pipeline::{apply_task_result, init_task_queue, TaskPriority, TaskQueue, TaskResult, TaskStatus, TaskType};
use media_catalog::pagination::TaskQueueStatusResponse;
use media_catalog::reconcile::build_entry;

fn job(n: u32) -> TaskType {
    TaskType::GenerateThumbnail { video_path: format!("/m/{}.mp4", n), thumbnail_path: format!("t/{}.jpg", n) }
}

#[test]
fn running_never_exceeds_limit() {
    let mut q = TaskQueue::new(3);
    for n in 0..20 {
        q.enqueue(job(n), TaskPriority::Normal, 0);
    }
    let mut started = Vec::new();
    while let Some(t) = q.start_next() {
        assert!(matches!(t.status, TaskStatus::Running));
        started.push(t.id);
    }
    assert_eq!(started, vec![0, 1, 2]);
    let s = q.get_stats();
    assert_eq!((s.pending_count, s.running_count), (17, 3));
    assert!(q.finish(1, true));
    assert!(!q.finish(1, true));
    assert_eq!(q.start_next().map(|t| t.id), Some(3));
    assert!(q.start_next().is_none());
    assert!(q.finish(0, false));
    let s = q.get_stats();
    assert_eq!((s.running_count, s.completed_count, s.failed_count), (2, 1, 1));
}

#[test]
fn higher_priority_starts_first_then_fifo() {
    let mut q = init_task_queue(1);
    q.enqueue(job(0), TaskPriority::Low, 0);
    q.enqueue(job(1), TaskPriority::High, 0);
    q.enqueue(job(2), TaskPriority::Normal, 0);
    q.enqueue(job(3), TaskPriority::High, 0);
    let mut order = Vec::new();
    while let Some(t) = q.start_next() {
        order.push(t.id);
        q.finish(t.id, true);
    }
    assert_eq!(order, vec![1, 3, 2, 0]);
    assert_eq!(q.get_stats().completed_count, 4);
}

#[test]
fn batch_and_shutdown() {
    let mut q = TaskQueue::new(4);
    let ids = q.enqueue_thumbnail_batch(vec![("a".to_string(), "ta".to_string()), ("b".to_string(), "tb".to_string())], 5);
    assert_eq!(ids, vec![0, 1]);
    q.shutdown();
    assert!(q.start_next().is_none());
    let r = TaskQueueStatusResponse::from_stats(q.get_stats());
    assert_eq!(r.pending_count, 2);
}

#[test]
fn zero_limit_starts_nothing() {
    let mut q = TaskQueue::new(0);
    assert!(q.can_enqueue());
    q.enqueue(job(0), TaskPriority::High, 0);
    assert!(q.start_next().is_none());
}

#[test]
fn results_flow_back_into_the_catalog() {
    let mut store = CatalogStore::new();
    let meta = VideoMetadata { duration: None, width: None, height: None, thumbnail_path: None };
    store.insert(build_entry("/m", "1.mp4", EntryKind::File(FileKind::Mp4), "t".to_string(), None, meta, 1)).unwrap();
    assert!(apply_task_result(&mut store, &job(1), TaskResult::ThumbnailGenerated("t/1.jpg".to_string())));
    assert_eq!(store.get_video_by_path("/m/1.mp4").unwrap().thumbnail, Some("t/1.jpg".to_string()));
    let probe = TaskType::ExtractMetadata { video_path: "/m/1.mp4".to_string(), thumbnail_path: "t/1.jpg".to_string() };
    let found = VideoMetadata { duration: Some("00:00:10".to_string()), width: Some(640), height: Some(360), thumbnail_path: None };
    assert!(apply_task_result(&mut store, &probe, TaskResult::MetadataExtracted(found)));
    let e = store.get_video_by_path("/m/1.mp4").unwrap();
    assert_eq!((e.width, e.height), (Some(640), Some(360)));
    assert_eq!(e.thumbnail, Some("t/1.jpg".to_string()));
    assert!(!apply_task_result(&mut store, &job(1), TaskResult::Failed("boom".to_string())));
    assert!(apply_task_result(&mut store, &job(9), TaskResult::ThumbnailGenerated("t/9.jpg".to_string())));
    assert_eq!(store.count_all(), 1);
}
