use pix::image::{File, Image};
use pix::pyramid::MetadataState;
use pix::queue::Band;
use pix::sched::{Pass, Scheduler};
use pix::visible::Place;

fn ranked_scheduler(n: usize) -> Scheduler<u8> {
    let mut images = Vec::new();
    for _ in 0..n {
        images.push(Image::from(File::default(), None));
    }
    Scheduler::new(images, 1, 0)
}

fn place(distance: isize, visible: bool) -> Option<Place> {
    Some(Place { distance, visible })
}

fn ranked_queue(s: &Scheduler<u8>, band: Band) -> Vec<usize> {
    match band {
        Band::Visible => s.cache_todo.visible.iter().copied().collect(),
        Band::Hidden => s.cache_todo.hidden.iter().copied().collect(),
    }
}

#[test]
fn recalc_ranks_nearest_first_within_each_band() {
    let mut s = ranked_scheduler(6);
    s.recalc_visible(&vec![
        place(50, true),
        place(10, false),
        place(30, true),
        place(5, false),
        place(20, true),
        place(40, false),
    ]);
    assert_eq!(ranked_queue(&s, Band::Visible), vec![4, 2, 0]);
    assert_eq!(ranked_queue(&s, Band::Hidden), vec![3, 1, 5]);
    assert_eq!(s.pass, Pass::Idle);
}

#[test]
fn recalc_keeps_collection_order_among_equals() {
    let mut s = ranked_scheduler(5);
    s.recalc_visible(&vec![
        place(7, true),
        place(3, true),
        place(7, true),
        place(3, true),
        place(7, true),
    ]);
    assert_eq!(ranked_queue(&s, Band::Visible), vec![1, 3, 0, 2, 4]);
    assert!(ranked_queue(&s, Band::Hidden).is_empty());
}

#[test]
fn recalc_ranks_negative_distances() {
    let mut s = ranked_scheduler(3);
    s.recalc_visible(&vec![place(0, true), place(isize::MIN, true), place(isize::MAX, true)]);
    assert_eq!(ranked_queue(&s, Band::Visible), vec![1, 0, 2]);
}

#[test]
fn recalc_leaves_out_failed_and_unplaced_images() {
    let mut s = ranked_scheduler(5);
    s.images[1].metadata = MetadataState::Errored;
    s.recalc_visible(&vec![place(4, true), place(3, true), None, place(1, true)]);
    // image 1 has failed, image 2 has no place, image 4 is beyond the places
    assert_eq!(ranked_queue(&s, Band::Visible), vec![3, 0]);
    assert!(ranked_queue(&s, Band::Hidden).is_empty());
}

#[test]
fn recalc_discards_what_was_queued() {
    let mut s = ranked_scheduler(3);
    s.cache_todo.push_back(Band::Visible, 2);
    s.cache_todo.push_back(Band::Visible, 2);
    s.cache_todo.push_back(Band::Hidden, 1);
    s.thumb_todo.push_back(Band::Visible, 0);
    s.thumb_todo.push_back(Band::Hidden, 1);
    s.start_pass(64);
    s.recalc_visible(&vec![place(1, false), place(0, false), place(2, true)]);
    assert_eq!(ranked_queue(&s, Band::Visible), vec![2]);
    assert_eq!(ranked_queue(&s, Band::Hidden), vec![1, 0]);
    assert!(s.thumb_todo.visible.is_empty());
    assert!(s.thumb_todo.hidden.is_empty());
    assert_eq!(s.pass, Pass::Idle);
}

#[test]
fn recalc_keeps_running_jobs_and_levels() {
    let mut s = ranked_scheduler(2);
    assert_eq!(s.make_thumb(1), Some(1));
    s.recalc_visible(&vec![place(1, true), place(0, true)]);
    assert_eq!(s.thumb_jobs.running.iter().copied().collect::<Vec<usize>>(), vec![1]);
    assert_eq!(ranked_queue(&s, Band::Visible), vec![1, 0]);
}

#[test]
fn recalc_of_empty_collection() {
    let mut s = ranked_scheduler(0);
    s.recalc_visible(&Vec::new());
    assert!(ranked_queue(&s, Band::Visible).is_empty());
    assert!(ranked_queue(&s, Band::Hidden).is_empty());
}

#[test]
fn recalc_matches_a_stable_sort() {
    let n = 200usize;
    let mut s = ranked_scheduler(n);
    let mut places = Vec::new();
    let mut seed: u64 = 12345;
    for _ in 0..n {
        seed = seed.wrapping_mul(6364136223846793005).wrapping_add(1442695040888963407);
        let distance = ((seed >> 33) % 17) as isize - 8;
        let visible = (seed >> 20) % 3 != 0;
        places.push(place(distance, visible));
    }
    s.recalc_visible(&places);
    let mut order: Vec<usize> = (0..n).collect();
    order.sort_by_key(|&i| places[i].unwrap().distance);
    let visible: Vec<usize> =
        order.iter().copied().filter(|&i| places[i].unwrap().visible).collect();
    let hidden: Vec<usize> =
        order.iter().copied().filter(|&i| !places[i].unwrap().visible).collect();
    assert_eq!(ranked_queue(&s, Band::Visible), visible);
    assert_eq!(ranked_queue(&s, Band::Hidden), hidden);
}
