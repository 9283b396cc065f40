use less2::line_num_cache::{LineNum, LineNumCache};

#[test]
fn s() {
    let mut s = LineNumCache::new();
    s.add(LineNum { num: 24, offset: 34 });

    assert_eq!(s.line_nums[0].is_some(), true);
    assert_eq!(s.line_nums[1].is_none(), true);
}

#[test]
fn closest_none() {
    let mut s = LineNumCache::new();
    assert!(s.closest(0).is_none());
}

#[test]
fn closest() {
    let mut s = LineNumCache::new();
    let l = LineNum { num: 24, offset: 34 };
    let m = LineNum { num: 8, offset: 2 };
    let n = LineNum { num: 389, offset: 1000 };
    s.add(l);
    s.add(m);
    s.add(n);

    assert_eq!(s.closest(999), Some((n, 1)));
    assert_eq!(s.closest(10), Some((m, -8)));
    assert_eq!(s.closest(30), Some((l, 4)));
}

#[test]
fn prev_picks_nearest_before() {
    let mut s = LineNumCache::new();
    s.add(LineNum { num: 1, offset: 10 });
    s.add(LineNum { num: 2, offset: 20 });
    s.add(LineNum { num: 3, offset: 40 });

    assert_eq!(s.prev(25), Some((LineNum { num: 2, offset: 20 }, 5)));
    assert_eq!(s.prev(10), None);
    assert_eq!(s.prev(1000), Some((LineNum { num: 3, offset: 40 }, 960)));
}

#[test]
fn add_evicts_first_slot_when_full() {
    let mut s = LineNumCache::new();
    for k in 0..24 {
        s.add(LineNum { num: k as i32, offset: k });
    }
    s.add(LineNum { num: 99, offset: 990 });
    assert_eq!(s.line_nums[0], Some(LineNum { num: 99, offset: 990 }));
    assert_eq!(s.line_nums[1], Some(LineNum { num: 1, offset: 1 }));
}
