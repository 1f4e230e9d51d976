use swipe_video::partition::{partition, Window};

fn starts_and_lens(w: &[Window]) -> (Vec<usize>, Vec<usize>) {
    (w.iter().map(|w| w.start).collect(), w.iter().map(|w| w.end - w.start).collect())
}

#[test]
fn eight_tiles_step_three_overlap_one() {
    let w = partition(8, 3, 1);
    let (starts, lens) = starts_and_lens(&w);
    assert_eq!(starts, vec![0, 2, 4, 6]);
    assert_eq!(lens, vec![3, 3, 3, 2]);
}

#[test]
fn ten_tiles_step_three_overlap_one() {
    let w = partition(10, 3, 1);
    let (starts, lens) = starts_and_lens(&w);
    assert_eq!(starts, vec![0, 2, 4, 6, 8]);
    assert_eq!(lens, vec![3, 3, 3, 3, 2]);
    assert_eq!(w.last().unwrap().end, 10);
}

#[test]
fn consecutive_windows_share_overlap() {
    for n in 5..40usize {
        for step in 2..8usize {
            for overlap in 0..step {
                if n <= overlap {
                    continue;
                }
                let w = partition(n, step, overlap);
                assert_eq!(w[0].start, 0);
                assert_eq!(w.last().unwrap().end, n);
                for pair in w.windows(2) {
                    assert_eq!(pair[0].end - pair[1].start, overlap);
                    assert_eq!(pair[0].len(), step);
                }
                assert!(w.last().unwrap().len() <= step);
            }
        }
    }
}

#[test]
fn one_window_when_tiles_fit() {
    let w = partition(4, 4, 2);
    assert_eq!(w, vec![Window { start: 0, end: 4 }]);
}

#[test]
fn zero_overlap_tiles_the_sequence() {
    let w = partition(7, 3, 0);
    let (starts, lens) = starts_and_lens(&w);
    assert_eq!(starts, vec![0, 3, 6]);
    assert_eq!(lens, vec![3, 3, 1]);
}
