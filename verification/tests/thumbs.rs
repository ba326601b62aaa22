use pix::error::E;
use pix::image::{File, Image};
use pix::key::{Pow2, TileRef};
use pix::pyramid::{Metadata, MetadataState, Thumb};
use pix::queue::{Band, WorkQueues};
use pix::sched::{Scheduler, Step};
use pix::thumbs::ThumbJob;
use pix::visible::Place;

fn thumb_pyramid(first_index: u64) -> Metadata {
    let mut thumbs = Vec::new();
    for e in 7u8..9 {
        thumbs.push(Thumb {
            img_size: (1u32 << e, 1u32 << e),
            tile_refs: vec![TileRef::new(Pow2(e), first_index, 0)],
        });
    }
    Metadata::new(thumbs).unwrap()
}

/// `n` images without a pyramid, `threads` worker threads, all images visible
/// and moved to the thumbnail queue by one loading pass.
fn thumb_scheduler(n: usize, threads: usize) -> Scheduler<u8> {
    let mut images = Vec::new();
    let mut places = Vec::new();
    for k in 0..n {
        images.push(Image::from(File::default(), None));
        places.push(Some(Place { distance: k as isize, visible: true }));
    }
    let mut s = Scheduler::new(images, threads, 500);
    s.recalc_visible(&places);
    s.start_pass(256);
    while s.load_cache() != Step::Done {}
    s
}

fn thumb_queue(s: &Scheduler<u8>, band: Band) -> Vec<usize> {
    match band {
        Band::Visible => s.thumb_todo.visible.iter().copied().collect(),
        Band::Hidden => s.thumb_todo.hidden.iter().copied().collect(),
    }
}

fn running(s: &Scheduler<u8>) -> Vec<usize> {
    s.thumb_jobs.running.iter().copied().collect()
}

#[test]
fn same_image_submitted_twice_gets_one_job() {
    let mut s = thumb_scheduler(3, 4);
    assert_eq!(s.make_thumb(1), Some(501));
    assert_eq!(running(&s), vec![1]);
    assert_eq!(s.make_thumb(1), None);
    assert_eq!(running(&s), vec![1]);
    assert_eq!(s.thumb_jobs.len(), 1);
    assert!(s.thumb_jobs.contains(1));
    assert!(!s.thumb_jobs.contains(0));
}

#[test]
fn job_id_is_base_plus_image_index() {
    let mut s = thumb_scheduler(3, 4);
    assert_eq!(s.make_thumb(0), Some(500));
    assert_eq!(s.make_thumb(2), Some(502));
}

#[test]
fn no_job_for_image_with_pyramid_or_failed_or_unknown() {
    let mut images = vec![
        Image::from(File::default(), Some(thumb_pyramid(0))),
        Image::from(File::default(), None),
    ];
    images[1].metadata = MetadataState::Errored;
    let mut s: Scheduler<u8> = Scheduler::new(images, 4, 0);
    assert_eq!(s.make_thumb(0), None);
    assert_eq!(s.make_thumb(1), None);
    assert_eq!(s.make_thumb(2), None);
    assert_eq!(s.make_thumb(usize::MAX), None);
    assert!(running(&s).is_empty());
}

#[test]
fn admission_stops_above_pool_size() {
    let mut s = thumb_scheduler(10, 2);
    assert_eq!(thumb_queue(&s, Band::Visible), (0..10).collect::<Vec<usize>>());
    let mut admitted = Vec::new();
    while let Some(job) = s.make_thumbs() {
        admitted.push(job);
        assert!(s.thumb_jobs.len() <= 3);
    }
    assert_eq!(
        admitted,
        vec![
            ThumbJob { image: 0, tile_id_index: 500 },
            ThumbJob { image: 1, tile_id_index: 501 },
            ThumbJob { image: 2, tile_id_index: 502 },
        ]
    );
    assert_eq!(running(&s), vec![0, 1, 2]);
    assert_eq!(thumb_queue(&s, Band::Visible), (3..10).collect::<Vec<usize>>());
    // nothing is taken from the queue while the pool is full
    assert_eq!(s.make_thumbs(), None);
    assert_eq!(thumb_queue(&s, Band::Visible), (3..10).collect::<Vec<usize>>());
    // one job ends: one more is admitted
    s.recv_thumb(1, Err(E::ImageError(String::from("not an image"))), Band::Visible);
    assert_eq!(s.make_thumbs(), Some(ThumbJob { image: 3, tile_id_index: 503 }));
    assert_eq!(s.make_thumbs(), None);
    assert_eq!(running(&s), vec![0, 2, 3]);
}

#[test]
fn admission_with_no_threads_runs_one_job() {
    let mut s = thumb_scheduler(3, 0);
    assert_eq!(s.make_thumbs(), Some(ThumbJob { image: 0, tile_id_index: 500 }));
    assert_eq!(s.make_thumbs(), None);
    assert_eq!(running(&s), vec![0]);
}

#[test]
fn admission_skips_queued_images_that_need_no_job() {
    let mut s = thumb_scheduler(4, 8);
    // image 0 has a job already, image 1 has failed meanwhile
    assert_eq!(s.make_thumb(0), Some(500));
    assert_eq!(s.make_thumb(1), Some(501));
    s.recv_thumb(1, Err(E::ImageError(String::from("not an image"))), Band::Visible);
    assert_eq!(thumb_queue(&s, Band::Visible), vec![0, 1, 2, 3]);
    assert_eq!(s.make_thumbs(), Some(ThumbJob { image: 2, tile_id_index: 502 }));
    assert_eq!(thumb_queue(&s, Band::Visible), vec![3]);
    assert_eq!(running(&s), vec![0, 2]);
}

#[test]
fn admission_takes_visible_band_first() {
    let mut images = Vec::new();
    for _ in 0..4 {
        images.push(Image::from(File::default(), None));
    }
    let mut s: Scheduler<u8> = Scheduler::new(images, 8, 0);
    s.recalc_visible(&vec![
        Some(Place { distance: 0, visible: false }),
        Some(Place { distance: 1, visible: true }),
        Some(Place { distance: 2, visible: false }),
        Some(Place { distance: 3, visible: true }),
    ]);
    s.start_pass(256);
    while s.load_cache() != Step::Done {}
    assert_eq!(thumb_queue(&s, Band::Visible), vec![1, 3]);
    assert_eq!(thumb_queue(&s, Band::Hidden), vec![0, 2]);
    let mut order = Vec::new();
    while let Some(job) = s.make_thumbs() {
        order.push(job.image);
    }
    assert_eq!(order, vec![1, 3, 0, 2]);
    assert!(thumb_queue(&s, Band::Visible).is_empty());
    assert!(thumb_queue(&s, Band::Hidden).is_empty());
}

#[test]
fn finished_job_puts_image_at_front_of_loading_queue() {
    let mut s = thumb_scheduler(3, 4);
    s.cache_todo.push_back(Band::Hidden, 2);
    assert_eq!(s.make_thumb(0), Some(500));
    assert_eq!(s.make_thumb(1), Some(501));
    s.recv_thumb(0, Ok(thumb_pyramid(0)), Band::Hidden);
    assert!(matches!(s.images[0].metadata, MetadataState::Present(_)));
    assert_eq!(s.images[0].size, None);
    assert_eq!(s.cache_todo.hidden.iter().copied().collect::<Vec<usize>>(), vec![0, 2]);
    assert!(s.cache_todo.visible.is_empty());
    assert_eq!(running(&s), vec![1]);
    // the image can now be loaded
    s.start_pass(128);
    let mut fetched = Vec::new();
    loop {
        match s.load_cache() {
            Step::Again => {}
            Step::Lod { .. } => s.lod(0),
            Step::Fetch { key } => {
                fetched.push(key);
                s.install(0);
            }
            Step::Done => break,
        }
    }
    assert_eq!(fetched, vec![TileRef::new(Pow2(7), 0, 0)]);
    assert_eq!(s.images[0].size, Some(0));
}

#[test]
fn failed_job_marks_image_for_good() {
    let mut s = thumb_scheduler(2, 4);
    assert_eq!(s.make_thumb(0), Some(500));
    s.recv_thumb(0, Err(E::RocksError(String::from("write failed"))), Band::Visible);
    assert!(matches!(s.images[0].metadata, MetadataState::Errored));
    assert!(s.cache_todo.visible.is_empty());
    assert!(running(&s).is_empty());
    // no further job is started for it
    assert_eq!(s.make_thumb(0), None);
    assert_eq!(s.make_thumbs(), Some(ThumbJob { image: 1, tile_id_index: 501 }));
    assert_eq!(s.make_thumbs(), None);
}

#[test]
fn result_without_job_is_ignored() {
    let mut s = thumb_scheduler(2, 4);
    s.recv_thumb(0, Ok(thumb_pyramid(0)), Band::Visible);
    s.recv_thumb(7, Err(E::MissingData(String::from("7"))), Band::Visible);
    assert!(matches!(s.images[0].metadata, MetadataState::Missing));
    assert!(s.cache_todo.visible.is_empty());
    assert!(running(&s).is_empty());
}

#[test]
fn work_queues_are_first_in_first_out() {
    let mut q = WorkQueues::new();
    assert_eq!(q.len(Band::Visible), 0);
    assert_eq!(q.pop_front(Band::Visible), None);
    q.push_back(Band::Visible, 1);
    q.push_back(Band::Visible, 2);
    q.push_front(Band::Visible, 0);
    q.push_back(Band::Hidden, 9);
    assert_eq!(q.len(Band::Visible), 3);
    assert_eq!(q.len(Band::Hidden), 1);
    assert_eq!(q.pop_front(Band::Visible), Some(0));
    assert_eq!(q.pop_front(Band::Visible), Some(1));
    assert_eq!(q.pop_front(Band::Hidden), Some(9));
    assert_eq!(q.pop_front(Band::Hidden), None);
    q.clear();
    assert_eq!(q.len(Band::Visible), 0);
    assert_eq!(Band::of(true), Band::Visible);
    assert_eq!(Band::of(false), Band::Hidden);
    assert_eq!(Band::Visible.index(), 0);
    assert_eq!(Band::Hidden.index(), 1);
}
