use ndir_sensor::filter::{near_rail, Median5, RAIL_HIGH, RAIL_LOW, REF_DIFF_MIN};

#[test]
fn thresholds_have_documented_values() {
    assert_eq!(RAIL_LOW, 8);
    assert_eq!(RAIL_HIGH, 1015);
    assert_eq!(REF_DIFF_MIN, 40);
}

#[test]
fn near_rail_mid_scale_is_clear() {
    assert!(!near_rail(512, 300, 700));
}

#[test]
fn near_rail_edges_of_low_rail() {
    assert!(near_rail(8, 500, 500));
    assert!(!near_rail(9, 500, 500));
    assert!(near_rail(500, 0, 500));
    assert!(near_rail(500, 500, 8));
}

#[test]
fn near_rail_edges_of_high_rail() {
    assert!(near_rail(1015, 500, 500));
    assert!(!near_rail(1014, 500, 500));
    assert!(near_rail(500, 1023, 500));
    assert!(near_rail(500, 500, 1015));
}

#[test]
fn median_first_sample_passes_through() {
    let mut m = Median5::new();
    assert_eq!(m.update(123), 123);
}

#[test]
fn median_of_partial_windows() {
    let mut m = Median5::new();
    assert_eq!(m.update(10), 10);
    // two samples: the upper middle one
    assert_eq!(m.update(5), 10);
    // three samples: 5, 10, 30
    assert_eq!(m.update(30), 10);
    // four samples: 5, 10, 20, 30
    assert_eq!(m.update(20), 20);
    // five samples: 5, 10, 20, 30, 40
    assert_eq!(m.update(40), 20);
}

#[test]
fn median_window_slides_over_last_five() {
    let mut m = Median5::new();
    for x in [1u16, 2, 3, 4, 5] {
        m.update(x);
    }
    // window 2, 3, 4, 5, 100
    assert_eq!(m.update(100), 4);
    // window 3, 4, 5, 100, 200
    assert_eq!(m.update(200), 5);
    // window 4, 5, 100, 200, 300
    assert_eq!(m.update(300), 100);
    // window 5, 100, 200, 300, 0
    assert_eq!(m.update(0), 100);
}

#[test]
fn median_rejects_short_spikes() {
    let mut m = Median5::new();
    for _ in 0..5 {
        assert_eq!(m.update(500), 500);
    }
    assert_eq!(m.update(1023), 500);
    assert_eq!(m.update(0), 500);
    assert_eq!(m.update(500), 500);
}

#[test]
fn median_ignores_arrival_order() {
    let orders: [[u16; 5]; 3] = [[7, 3, 9, 1, 5], [1, 3, 5, 7, 9], [9, 7, 5, 3, 1]];
    for order in orders {
        let mut m = Median5::new();
        let mut last = 0;
        for x in order {
            last = m.update(x);
        }
        assert_eq!(last, 5);
    }
}

#[test]
fn median_handles_duplicates_and_extremes() {
    let mut m = Median5::new();
    for x in [u16::MAX, 0, u16::MAX, 0, 0] {
        m.update(x);
    }
    // window 0, MAX, 0, 0, MAX
    assert_eq!(m.update(u16::MAX), 0);
    // window MAX, 0, 0, MAX, MAX
    assert_eq!(m.update(u16::MAX), u16::MAX);
}

#[test]
fn median_never_falls_when_new_sample_rises() {
    let history = [40u16, 10, 70, 20, 60, 30];
    let mut last = 0u16;
    for x in [0u16, 15, 25, 35, 45, 65, 1023] {
        let mut m = Median5::new();
        for h in history {
            m.update(h);
        }
        let r = m.update(x);
        assert!(r >= last);
        last = r;
    }
    // window 70, 20, 60, 30, 1023: median 60
    assert_eq!(last, 60);
}
